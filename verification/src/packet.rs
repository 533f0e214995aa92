//! The LiDAR ethernet packet: a fixed 36-byte little-endian header followed
//! by the point-cloud or IMU payload.
//!
//! Header layout (byte offsets): version 0, length 1-2, time_interval 3-4,
//! dot_num 5-6, udp_cnt 7-8, frame_cnt 9, data_type 10, time_type 11,
//! reserved 12-23, crc32 24-27, timestamp 28-35, payload from 36.

use vstd::prelude::*;
use crate::wire::{le_u16, le_u32, read_u16_le, read_u32_le, lemma_le_u16_bytes};
use crate::points::{
    cartesian_high_points, cartesian_low_points, spherical_points, double_echo_points,
    lemma_high_fields, lemma_low_fields, lemma_spherical_fields, lemma_double_echo_fields,
    parse_cartesian_high, parse_cartesian_low, parse_spherical, parse_double_echo, RawPoint,
};

verus! {

/// Size of the packet header: the bytes before the payload.
pub const PACKET_HEADER_SIZE: usize = 36;

/// `data_type` of an IMU packet.
pub const DATA_TYPE_IMU: u8 = 0;
/// `data_type` of Cartesian points in millimetres.
pub const DATA_TYPE_CARTESIAN_HIGH: u8 = 1;
/// `data_type` of Cartesian points in centimetres.
pub const DATA_TYPE_CARTESIAN_LOW: u8 = 2;
/// `data_type` of spherical points.
pub const DATA_TYPE_SPHERICAL: u8 = 3;
/// `data_type` of double-echo Cartesian points.
pub const DATA_TYPE_DOUBLE_ECHO: u8 = 4;

/// The `length` field: header plus payload, in bytes.
pub open spec fn length_field(raw: Seq<u8>) -> int {
    le_u16(raw, 1)
}

/// Payload size announced by the header: `length` minus the header size,
/// or 0 when `length` is smaller than the header.
pub open spec fn payload_len(raw: Seq<u8>) -> int {
    if length_field(raw) >= PACKET_HEADER_SIZE {
        length_field(raw) - PACKET_HEADER_SIZE
    } else {
        0
    }
}

/// `raw` holds a whole header and the whole payload that the header announces.
pub open spec fn is_complete_packet(raw: Seq<u8>) -> bool {
    &&& raw.len() >= PACKET_HEADER_SIZE
    &&& raw.len() >= PACKET_HEADER_SIZE + payload_len(raw)
}

/// The payload bytes of a complete packet.
pub open spec fn payload(raw: Seq<u8>) -> Seq<u8> {
    raw.subrange(PACKET_HEADER_SIZE as int, PACKET_HEADER_SIZE + payload_len(raw))
}

/// The points that a packet's payload holds, read in the format that its
/// `data_type` names; none for IMU packets and unknown types.
pub open spec fn packet_points(raw: Seq<u8>) -> Seq<RawPoint> {
    let data = payload(raw);
    if raw[10] == DATA_TYPE_CARTESIAN_HIGH {
        cartesian_high_points(data)
    } else if raw[10] == DATA_TYPE_CARTESIAN_LOW {
        cartesian_low_points(data)
    } else if raw[10] == DATA_TYPE_SPHERICAL {
        spherical_points(data)
    } else if raw[10] == DATA_TYPE_DOUBLE_ECHO {
        double_echo_points(data)
    } else {
        Seq::empty()
    }
}

/// The `length` field of a complete packet counts the header and the
/// payload: whenever it is at least the header size, it is the header size
/// plus the payload's length.
pub proof fn lemma_length_is_header_plus_payload(raw: Seq<u8>)
    requires
        is_complete_packet(raw),
    ensures
        payload(raw).len() == payload_len(raw),
        length_field(raw) >= PACKET_HEADER_SIZE ==> length_field(raw) == PACKET_HEADER_SIZE + payload(raw).len(),
{
}

/// View over one received ethernet packet. It borrows the datagram's bytes,
/// which always hold the whole header and the whole announced payload.
#[derive(Copy, Clone)]
pub struct Packet<'a> {
    raw: &'a [u8],
    data_len: usize,
}

impl<'a> View for Packet<'a> {
    type V = Seq<u8>;

    /// The bytes of the datagram.
    closed spec fn view(&self) -> Seq<u8> {
        self.raw@
    }
}

impl<'a> Packet<'a> {
    #[verifier::type_invariant]
    closed spec fn wf(self) -> bool {
        &&& is_complete_packet(self.raw@)
        &&& self.data_len == payload_len(self.raw@)
    }

    /// Views `raw` as a packet. `None` when `raw` is shorter than the header
    /// or than the header plus the payload that its `length` announces.
    pub fn new(raw: &'a [u8]) -> (r: Option<Packet<'a>>)
        ensures
            r is Some <==> is_complete_packet(raw@),
            r is Some <==> raw@.len() >= 36 && raw@.len() >= 36 + (if raw@[1] as int + 256 * raw@[2] as int >= 36 {
                raw@[1] as int + 256 * raw@[2] as int - 36
            } else {
                0
            }),
            r matches Some(p) ==> p@ == raw@,
    {
        if raw.len() < PACKET_HEADER_SIZE {
            return None;
        }
        let length = read_u16_le(raw, 1);
        let data_len: usize = if length >= 36 {
            (length - 36) as usize
        } else {
            0
        };
        if raw.len() - PACKET_HEADER_SIZE < data_len {
            return None;
        }
        Some(Packet { raw, data_len })
    }

    /// Protocol version.
    pub fn version(&self) -> (r: u8)
        ensures
            r == self@[0],
    {
        proof {
            use_type_invariant(self);
        }
        self.raw[0]
    }

    /// Total packet length in bytes (header + payload).
    pub fn length(&self) -> (r: u16)
        ensures
            r == length_field(self@),
            r as int == self@[1] as int + 256 * self@[2] as int,
            is_complete_packet(self@),
    {
        proof {
            use_type_invariant(self);
        }
        read_u16_le(self.raw, 1)
    }

    /// Unit: 0.1 µs.
    pub fn time_interval(&self) -> (r: u16)
        ensures
            r == le_u16(self@, 3),
    {
        proof {
            use_type_invariant(self);
        }
        read_u16_le(self.raw, 3)
    }

    /// Number of points in this packet.
    pub fn dot_num(&self) -> (r: u16)
        ensures
            r == le_u16(self@, 5),
    {
        proof {
            use_type_invariant(self);
        }
        read_u16_le(self.raw, 5)
    }

    /// UDP packet counter.
    pub fn udp_cnt(&self) -> (r: u16)
        ensures
            r == le_u16(self@, 7),
    {
        proof {
            use_type_invariant(self);
        }
        read_u16_le(self.raw, 7)
    }

    /// Frame counter.
    pub fn frame_cnt(&self) -> (r: u8)
        ensures
            r == self@[9],
    {
        proof {
            use_type_invariant(self);
        }
        self.raw[9]
    }

    /// Data type, e.g. point cloud vs IMU.
    pub fn data_type(&self) -> (r: u8)
        ensures
            r == self@[10],
    {
        proof {
            use_type_invariant(self);
        }
        self.raw[10]
    }

    /// Timestamp type.
    pub fn time_type(&self) -> (r: u8)
        ensures
            r == self@[11],
    {
        proof {
            use_type_invariant(self);
        }
        self.raw[11]
    }

    /// CRC-32 field of the header.
    pub fn crc32(&self) -> (r: u32)
        ensures
            r == le_u32(self@, 24),
    {
        proof {
            use_type_invariant(self);
        }
        read_u32_le(self.raw, 24)
    }

    /// Raw 8-byte timestamp.
    pub fn timestamp(&self) -> (r: [u8; 8])
        ensures
            r@ == self@.subrange(28, 36),
    {
        proof {
            use_type_invariant(self);
        }
        let t = [
            self.raw[28],
            self.raw[29],
            self.raw[30],
            self.raw[31],
            self.raw[32],
            self.raw[33],
            self.raw[34],
            self.raw[35],
        ];
        assert(t@ =~= self@.subrange(28, 36));
        t
    }

    /// Raw payload bytes (point cloud or IMU) following the packet header.
    pub fn data(&self) -> (r: &'a [u8])
        ensures
            r@ == payload(self@),
            r@.len() == payload_len(self@),
            r@.len() == if self@[1] as int + 256 * self@[2] as int >= 36 {
                self@[1] as int + 256 * self@[2] as int - 36
            } else {
                0
            },
            forall|i: int| 0 <= i < r@.len() ==> #[trigger] r@[i] == self@[36 + i],
            is_complete_packet(self@),
    {
        proof {
            use_type_invariant(self);
        }
        vstd::slice::slice_subrange(self.raw, PACKET_HEADER_SIZE, PACKET_HEADER_SIZE + self.data_len)
    }

    /// Parses the payload into points, in the format selected by the
    /// packet's `data_type` (Cartesian high/low, spherical, or double-echo).
    /// IMU packets and unknown types yield an empty vector.
    pub fn points(&self) -> (r: Vec<RawPoint>)
        ensures
            r@ == packet_points(self@),
    {
        let data = self.data();
        let t = self.data_type();
        if t == DATA_TYPE_CARTESIAN_HIGH {
            parse_cartesian_high(data)
        } else if t == DATA_TYPE_CARTESIAN_LOW {
            parse_cartesian_low(data)
        } else if t == DATA_TYPE_SPHERICAL {
            parse_spherical(data)
        } else if t == DATA_TYPE_DOUBLE_ECHO {
            parse_double_echo(data)
        } else {
            Vec::new()
        }
    }
}


/// The `length` field is the unsigned 16-bit little-endian value of bytes 1
/// and 2 (byte 1 + 256 * byte 2); the payload is that many bytes minus the
/// 36-byte header, starting at byte 36, and none when `length` is smaller
/// than the header.
pub proof fn lemma_length_field_bytes(raw: Seq<u8>)
    requires
        raw.len() >= PACKET_HEADER_SIZE,
    ensures
        length_field(raw) == raw[1] as int + 256 * raw[2] as int,
        0 <= length_field(raw) < 0x1_0000,
        length_field(raw) % 256 == raw[1],
        length_field(raw) / 256 == raw[2],
        payload_len(raw) == if raw[1] as int + 256 * raw[2] as int >= 36 {
            raw[1] as int + 256 * raw[2] as int - 36
        } else {
            0
        },
        is_complete_packet(raw) ==> payload(raw).len() == payload_len(raw) && forall|i: int|
            0 <= i < payload_len(raw) ==> #[trigger] payload(raw)[i] == raw[36 + i],
{
    lemma_le_u16_bytes(raw, 1);
}

/// The points of a complete packet, in terms of the datagram's own bytes:
/// for `data_type` 1, 3 and 2 the `i`-th point is the record of 14, 12 or 8
/// bytes at byte `36 + size * i`, whose last-but-one and last fields are
/// its reflectivity and tag; for `data_type` 4, the `i`-th point is the
/// 14-byte echo at byte `36 + 14 * i`, taken from whole 28-byte records;
/// every other type yields no point.
pub proof fn lemma_packet_points_bytes(raw: Seq<u8>, i: int)
    requires
        is_complete_packet(raw),
        0 <= i,
    ensures
        raw[10] == DATA_TYPE_CARTESIAN_HIGH ==> packet_points(raw).len() == payload_len(raw) / 14 && (i
            < payload_len(raw) / 14 ==> {
            &&& packet_points(raw)[i].reflectivity == raw[36 + 14 * i + 12]
            &&& packet_points(raw)[i].tag == raw[36 + 14 * i + 13]
        }),
        raw[10] == DATA_TYPE_CARTESIAN_LOW ==> packet_points(raw).len() == payload_len(raw) / 8 && (i
            < payload_len(raw) / 8 ==> {
            &&& packet_points(raw)[i].reflectivity == raw[36 + 8 * i + 6]
            &&& packet_points(raw)[i].tag == raw[36 + 8 * i + 7]
        }),
        raw[10] == DATA_TYPE_SPHERICAL ==> packet_points(raw).len() == payload_len(raw) / 12 && (i
            < payload_len(raw) / 12 ==> {
            &&& packet_points(raw)[i].reflectivity == raw[36 + 12 * i + 8]
            &&& packet_points(raw)[i].tag == raw[36 + 12 * i + 9]
        }),
        raw[10] == DATA_TYPE_DOUBLE_ECHO ==> packet_points(raw).len() == 2 * (payload_len(raw) / 28) && (i
            < 2 * (payload_len(raw) / 28) ==> {
            &&& packet_points(raw)[i].reflectivity == raw[36 + 14 * i + 12]
            &&& packet_points(raw)[i].tag == raw[36 + 14 * i + 13]
        }),
        raw[10] != DATA_TYPE_CARTESIAN_HIGH && raw[10] != DATA_TYPE_CARTESIAN_LOW && raw[10]
            != DATA_TYPE_SPHERICAL && raw[10] != DATA_TYPE_DOUBLE_ECHO ==> packet_points(raw).len() == 0,
{
    lemma_length_field_bytes(raw);
    let data = payload(raw);
    assert(data.len() == payload_len(raw));
    if raw[10] == DATA_TYPE_CARTESIAN_HIGH && i < payload_len(raw) / 14 {
        lemma_high_fields(data, i);
        assert(data[14 * i + 12] == raw[36 + (14 * i + 12)]);
        assert(data[14 * i + 13] == raw[36 + (14 * i + 13)]);
    }
    if raw[10] == DATA_TYPE_CARTESIAN_LOW && i < payload_len(raw) / 8 {
        lemma_low_fields(data, i);
        assert(data[8 * i + 6] == raw[36 + (8 * i + 6)]);
        assert(data[8 * i + 7] == raw[36 + (8 * i + 7)]);
    }
    if raw[10] == DATA_TYPE_SPHERICAL && i < payload_len(raw) / 12 {
        lemma_spherical_fields(data, i);
        assert(data[12 * i + 8] == raw[36 + (12 * i + 8)]);
        assert(data[12 * i + 9] == raw[36 + (12 * i + 9)]);
    }
    if raw[10] == DATA_TYPE_DOUBLE_ECHO && i < 2 * (payload_len(raw) / 28) {
        let j = i / 2;
        let k = i % 2;
        assert(i == 2 * j + k);
        lemma_double_echo_fields(data, j, k);
        assert(28 * j + 14 * k == 14 * i);
        assert(data[14 * i + 12] == raw[36 + (14 * i + 12)]);
        assert(data[14 * i + 13] == raw[36 + (14 * i + 13)]);
    }
}

} // verus!
