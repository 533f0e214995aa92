//! Point records of the point-cloud payload, in the sensor's own integer units.
//!
//! A payload is a run of fixed-size records; a trailing partial record is
//! ignored. The conversion to metres happens outside this library.

use vstd::prelude::*;
use crate::wire::{le_u16, le_u32, signed16, signed32, read_i16_le, read_i32_le, read_u16_le, read_u32_le};

verus! {

/// Bytes of one Cartesian record with millimetre coordinates.
pub const CARTESIAN_HIGH_SIZE: usize = 14;
/// Bytes of one Cartesian record with centimetre coordinates.
pub const CARTESIAN_LOW_SIZE: usize = 8;
/// Bytes of one spherical record.
pub const SPHERICAL_SIZE: usize = 12;
/// Bytes of one double-echo record (two millimetre records).
pub const DOUBLE_ECHO_SIZE: usize = 28;

/// Coordinates of a point as the sensor sends them.
#[derive(Clone, Copy, Debug, PartialEq, Eq, Structural)]
pub enum Coordinates {
    /// Cartesian coordinates in millimetres.
    Millimeters { x: i32, y: i32, z: i32 },
    /// Cartesian coordinates in centimetres.
    Centimeters { x: i16, y: i16, z: i16 },
    /// Spherical coordinates: `depth` in millimetres, azimuth `theta` and
    /// elevation `phi` in hundredths of a degree.
    Spherical { depth: u32, theta: u16, phi: u16 },
}

/// One point record: its coordinates and the raw `reflectivity` and `tag`
/// values (0 to 255).
#[derive(Clone, Copy, Debug, PartialEq, Eq, Structural)]
pub struct RawPoint {
    pub coords: Coordinates,
    pub reflectivity: u8,
    pub tag: u8,
}

/// Whether a point with these raw values is a real return: the sensor marks
/// invalid returns and its blind spot with a non-zero `tag` or with
/// reflectivity `0xFF`.
pub open spec fn spec_is_valid(reflectivity: u8, tag: u8) -> bool {
    tag == 0 && reflectivity != 0xFF
}

/// The validity test of [`spec_is_valid`] on raw values.
pub fn is_valid_return(reflectivity: u8, tag: u8) -> (r: bool)
    ensures
        r == spec_is_valid(reflectivity, tag),
        r == (tag == 0 && reflectivity != 0xFF),
{
    tag == 0 && reflectivity != 0xFF
}

impl RawPoint {
    /// False for the invalid-point convention (non-zero tag or
    /// reflectivity `0xFF`).
    pub fn is_valid(&self) -> (r: bool)
        ensures
            r == spec_is_valid(self.reflectivity, self.tag),
    {
        is_valid_return(self.reflectivity, self.tag)
    }
}

/// The millimetre record that starts at `off`.
pub open spec fn high_record(s: Seq<u8>, off: int) -> RawPoint {
    RawPoint {
        coords: Coordinates::Millimeters {
            x: signed32(le_u32(s, off)) as i32,
            y: signed32(le_u32(s, off + 4)) as i32,
            z: signed32(le_u32(s, off + 8)) as i32,
        },
        reflectivity: s[off + 12],
        tag: s[off + 13],
    }
}

/// The centimetre record that starts at `off`.
pub open spec fn low_record(s: Seq<u8>, off: int) -> RawPoint {
    RawPoint {
        coords: Coordinates::Centimeters {
            x: signed16(le_u16(s, off)) as i16,
            y: signed16(le_u16(s, off + 2)) as i16,
            z: signed16(le_u16(s, off + 4)) as i16,
        },
        reflectivity: s[off + 6],
        tag: s[off + 7],
    }
}

/// The spherical record that starts at `off` (its last two bytes are unused).
pub open spec fn spherical_record(s: Seq<u8>, off: int) -> RawPoint {
    RawPoint {
        coords: Coordinates::Spherical {
            depth: le_u32(s, off) as u32,
            theta: le_u16(s, off + 4) as u16,
            phi: le_u16(s, off + 6) as u16,
        },
        reflectivity: s[off + 8],
        tag: s[off + 9],
    }
}

/// All whole millimetre records of `data`, in order.
pub open spec fn cartesian_high_points(data: Seq<u8>) -> Seq<RawPoint> {
    Seq::new(data.len() / 14, |i: int| high_record(data, 14 * i))
}

/// All whole centimetre records of `data`, in order.
pub open spec fn cartesian_low_points(data: Seq<u8>) -> Seq<RawPoint> {
    Seq::new(data.len() / 8, |i: int| low_record(data, 8 * i))
}

/// All whole spherical records of `data`, in order.
pub open spec fn spherical_points(data: Seq<u8>) -> Seq<RawPoint> {
    Seq::new(data.len() / 12, |i: int| spherical_record(data, 12 * i))
}

/// Both echoes of every whole double-echo record of `data`: echo `k` of
/// record `j` is the millimetre record at `28 * j + 14 * k`, which is the
/// millimetre record at `14 * (2 * j + k)`.
pub open spec fn double_echo_points(data: Seq<u8>) -> Seq<RawPoint> {
    Seq::new(2 * (data.len() / 28), |i: int| high_record(data, 14 * i))
}

/// Reads one millimetre record from the start of `c`.
pub fn point_from_high(c: &[u8]) -> (p: RawPoint)
    requires
        c@.len() >= 14,
    ensures
        p == high_record(c@, 0),
{
    point_from_high_at(c, 0)
}

fn point_from_high_at(c: &[u8], off: usize) -> (p: RawPoint)
    requires
        off + 14 <= c@.len(),
    ensures
        p == high_record(c@, off as int),
{
    proof {
        assert(c@.len() == c.len());
    }
    RawPoint {
        coords: Coordinates::Millimeters {
            x: read_i32_le(c, off),
            y: read_i32_le(c, off + 4),
            z: read_i32_le(c, off + 8),
        },
        reflectivity: c[off + 12],
        tag: c[off + 13],
    }
}

fn point_from_low_at(c: &[u8], off: usize) -> (p: RawPoint)
    requires
        off + 8 <= c@.len(),
    ensures
        p == low_record(c@, off as int),
{
    proof {
        assert(c@.len() == c.len());
    }
    RawPoint {
        coords: Coordinates::Centimeters {
            x: read_i16_le(c, off),
            y: read_i16_le(c, off + 2),
            z: read_i16_le(c, off + 4),
        },
        reflectivity: c[off + 6],
        tag: c[off + 7],
    }
}

fn point_from_spherical_at(c: &[u8], off: usize) -> (p: RawPoint)
    requires
        off + 12 <= c@.len(),
    ensures
        p == spherical_record(c@, off as int),
{
    proof {
        assert(c@.len() == c.len());
    }
    RawPoint {
        coords: Coordinates::Spherical {
            depth: read_u32_le(c, off),
            theta: read_u16_le(c, off + 4),
            phi: read_u16_le(c, off + 6),
        },
        reflectivity: c[off + 8],
        tag: c[off + 9],
    }
}

/// Once `k` records of `size` bytes have been read and fewer than `size`
/// bytes are left, `k` is the number of whole records.
proof fn lemma_record_count(len: int, size: int, k: int)
    requires
        size > 0,
        k >= 0,
        size * k <= len < size * k + size,
    ensures
        len / size == k,
{
    assert(k * size == size * k) by (nonlinear_arith);
    vstd::arithmetic::div_mod::lemma_fundamental_div_mod_converse(len, size, k, len - size * k);
}

/// Parses the payload as millimetre Cartesian records.
pub fn parse_cartesian_high(data: &[u8]) -> (out: Vec<RawPoint>)
    ensures
        out@ == cartesian_high_points(data@),
{
    let mut out: Vec<RawPoint> = Vec::new();
    let mut off: usize = 0;
    while data.len() - off >= CARTESIAN_HIGH_SIZE
        invariant
            off == 14 * out@.len(),
            off <= data@.len(),
            forall|i: int| 0 <= i < out@.len() ==> out@[i] == high_record(data@, 14 * i),
        decreases data@.len() - off,
    {
        let p = point_from_high_at(data, off);
        out.push(p);
        off = off + CARTESIAN_HIGH_SIZE;
    }
    proof {
        lemma_record_count(data@.len() as int, 14, out@.len() as int);
    }
    assert(out@ =~= cartesian_high_points(data@));
    out
}

/// Parses the payload as centimetre Cartesian records.
pub fn parse_cartesian_low(data: &[u8]) -> (out: Vec<RawPoint>)
    ensures
        out@ == cartesian_low_points(data@),
{
    let mut out: Vec<RawPoint> = Vec::new();
    let mut off: usize = 0;
    while data.len() - off >= CARTESIAN_LOW_SIZE
        invariant
            off == 8 * out@.len(),
            off <= data@.len(),
            forall|i: int| 0 <= i < out@.len() ==> out@[i] == low_record(data@, 8 * i),
        decreases data@.len() - off,
    {
        let p = point_from_low_at(data, off);
        out.push(p);
        off = off + CARTESIAN_LOW_SIZE;
    }
    proof {
        lemma_record_count(data@.len() as int, 8, out@.len() as int);
    }
    assert(out@ =~= cartesian_low_points(data@));
    out
}

/// Parses the payload as spherical records.
pub fn parse_spherical(data: &[u8]) -> (out: Vec<RawPoint>)
    ensures
        out@ == spherical_points(data@),
{
    let mut out: Vec<RawPoint> = Vec::new();
    let mut off: usize = 0;
    while data.len() - off >= SPHERICAL_SIZE
        invariant
            off == 12 * out@.len(),
            off <= data@.len(),
            forall|i: int| 0 <= i < out@.len() ==> out@[i] == spherical_record(data@, 12 * i),
        decreases data@.len() - off,
    {
        let p = point_from_spherical_at(data, off);
        out.push(p);
        off = off + SPHERICAL_SIZE;
    }
    proof {
        lemma_record_count(data@.len() as int, 12, out@.len() as int);
    }
    assert(out@ =~= spherical_points(data@));
    out
}

/// Parses the payload as double-echo records: two millimetre points per
/// record, first echo first.
pub fn parse_double_echo(data: &[u8]) -> (out: Vec<RawPoint>)
    ensures
        out@ == double_echo_points(data@),
{
    let mut out: Vec<RawPoint> = Vec::new();
    let mut off: usize = 0;
    let mut records: usize = 0;
    while data.len() - off >= DOUBLE_ECHO_SIZE
        invariant
            off == 28 * records,
            out@.len() == 2 * records,
            off <= data@.len(),
            forall|i: int| 0 <= i < out@.len() ==> out@[i] == high_record(data@, 14 * i),
        decreases data@.len() - off,
    {
        let first = point_from_high(vstd::slice::slice_subrange(data, off, off + 14));
        let second = point_from_high(vstd::slice::slice_subrange(data, off + 14, off + 28));
        proof {
            lemma_high_record_subrange(data@, off as int);
            lemma_high_record_subrange(data@, off + 14);
        }
        out.push(first);
        out.push(second);
        off = off + DOUBLE_ECHO_SIZE;
        records = records + 1;
    }
    proof {
        lemma_record_count(data@.len() as int, 28, records as int);
    }
    assert(out@ =~= double_echo_points(data@));
    out
}

/// A millimetre record read from a slice of the payload is the record at
/// the slice's start.
proof fn lemma_high_record_subrange(s: Seq<u8>, off: int)
    requires
        0 <= off,
        off + 14 <= s.len(),
    ensures
        high_record(s.subrange(off, off + 14), 0) == high_record(s, off),
{
    let c = s.subrange(off, off + 14);
    assert(le_u32(c, 0) == le_u32(s, off));
    assert(le_u32(c, 4) == le_u32(s, off + 4));
    assert(le_u32(c, 8) == le_u32(s, off + 8));
}


/// Bytes after the last whole millimetre record are ignored: the payload
/// yields the same points as its longest prefix of whole records.
pub proof fn lemma_high_ignores_partial_record(data: Seq<u8>)
    ensures
        cartesian_high_points(data) == cartesian_high_points(data.take(14 * (data.len() / 14) as int)),
{
    let n: int = (data.len() / 14) as int;
    let t = data.take(14 * n);
    assert(14 * n <= data.len()) by {
        vstd::arithmetic::div_mod::lemma_fundamental_div_mod(data.len() as int, 14);
    }
    lemma_record_count(t.len() as int, 14, n);
    assert forall|i: int| 0 <= i < n implies #[trigger] cartesian_high_points(t)[i] == cartesian_high_points(data)[i] by {
        assert(le_u32(t, 14 * i) == le_u32(data, 14 * i));
        assert(le_u32(t, 14 * i + 4) == le_u32(data, 14 * i + 4));
        assert(le_u32(t, 14 * i + 8) == le_u32(data, 14 * i + 8));
    }
    assert(cartesian_high_points(data) =~= cartesian_high_points(t));
}

/// Payloads made of whole millimetre records parse piecewise: the points of
/// `a + b` are the points of `a` followed by those of `b`.
pub proof fn lemma_high_concat(a: Seq<u8>, b: Seq<u8>)
    requires
        a.len() % 14 == 0,
    ensures
        cartesian_high_points(a + b) == cartesian_high_points(a) + cartesian_high_points(b),
{
    let na: int = (a.len() / 14) as int;
    let nb: int = (b.len() / 14) as int;
    let ab = a + b;
    vstd::arithmetic::div_mod::lemma_fundamental_div_mod(a.len() as int, 14);
    vstd::arithmetic::div_mod::lemma_fundamental_div_mod(b.len() as int, 14);
    assert(a.len() == 14 * na);
    assert(14 * nb <= b.len() < 14 * nb + 14) by {
        vstd::arithmetic::div_mod::lemma_mod_pos_bound(b.len() as int, 14);
    }
    lemma_record_count(ab.len() as int, 14, na + nb);
    let lhs = cartesian_high_points(ab);
    let rhs = cartesian_high_points(a) + cartesian_high_points(b);
    assert forall|i: int| 0 <= i < na + nb implies #[trigger] lhs[i] == rhs[i] by {
        if i < na {
            assert(le_u32(ab, 14 * i) == le_u32(a, 14 * i));
            assert(le_u32(ab, 14 * i + 4) == le_u32(a, 14 * i + 4));
            assert(le_u32(ab, 14 * i + 8) == le_u32(a, 14 * i + 8));
        } else {
            let k = i - na;
            assert(14 * i == 14 * na + 14 * k);
            assert(le_u32(ab, 14 * i) == le_u32(b, 14 * k));
            assert(le_u32(ab, 14 * i + 4) == le_u32(b, 14 * k + 4));
            assert(le_u32(ab, 14 * i + 8) == le_u32(b, 14 * k + 8));
        }
    }
    assert(lhs =~= rhs);
}

/// A double-echo payload yields the same points as the millimetre reading
/// of its whole double-echo records: first and second echo of each record,
/// record after record.
pub proof fn lemma_double_echo_is_high_pairs(data: Seq<u8>)
    ensures
        double_echo_points(data) == cartesian_high_points(data.take(28 * (data.len() / 28) as int)),
{
    let n: int = (data.len() / 28) as int;
    let t = data.take(28 * n);
    assert(28 * n <= data.len()) by {
        vstd::arithmetic::div_mod::lemma_fundamental_div_mod(data.len() as int, 28);
    }
    lemma_record_count(t.len() as int, 14, 2 * n);
    assert forall|i: int| 0 <= i < 2 * n implies #[trigger] cartesian_high_points(t)[i] == double_echo_points(data)[i] by {
        assert(le_u32(t, 14 * i) == le_u32(data, 14 * i));
        assert(le_u32(t, 14 * i + 4) == le_u32(data, 14 * i + 4));
        assert(le_u32(t, 14 * i + 8) == le_u32(data, 14 * i + 8));
    }
    assert(double_echo_points(data) =~= cartesian_high_points(t));
}


/// The validity convention: a point with a non-zero tag is invalid, one
/// with reflectivity 0xFF is invalid, and every other point is valid.
pub proof fn lemma_validity(reflectivity: u8, tag: u8)
    ensures
        tag != 0 ==> !spec_is_valid(reflectivity, tag),
        reflectivity == 0xFF ==> !spec_is_valid(reflectivity, tag),
        tag == 0 && reflectivity < 0xFF ==> spec_is_valid(reflectivity, tag),
{
}

/// Record `i` of a millimetre payload is read from its own 14 bytes: x, y
/// and z are the signed little-endian 32-bit values at bytes 0, 4 and 8 of
/// the record, then come reflectivity and tag.
pub proof fn lemma_high_fields(data: Seq<u8>, i: int)
    requires
        0 <= i < data.len() / 14,
    ensures
        cartesian_high_points(data).len() == data.len() / 14,
        14 * i + 14 <= data.len(),
        cartesian_high_points(data)[i].reflectivity == data[14 * i + 12],
        cartesian_high_points(data)[i].tag == data[14 * i + 13],
        cartesian_high_points(data)[i].coords == (Coordinates::Millimeters {
            x: signed32(le_u32(data, 14 * i)) as i32,
            y: signed32(le_u32(data, 14 * i + 4)) as i32,
            z: signed32(le_u32(data, 14 * i + 8)) as i32,
        }),
{
    lemma_whole_records(data.len() as int, 14, i);
}

/// Record `i` of a centimetre payload is read from its own 8 bytes: x, y
/// and z are the signed little-endian 16-bit values at bytes 0, 2 and 4 of
/// the record, then come reflectivity and tag.
pub proof fn lemma_low_fields(data: Seq<u8>, i: int)
    requires
        0 <= i < data.len() / 8,
    ensures
        cartesian_low_points(data).len() == data.len() / 8,
        8 * i + 8 <= data.len(),
        cartesian_low_points(data)[i].reflectivity == data[8 * i + 6],
        cartesian_low_points(data)[i].tag == data[8 * i + 7],
        cartesian_low_points(data)[i].coords == (Coordinates::Centimeters {
            x: signed16(le_u16(data, 8 * i)) as i16,
            y: signed16(le_u16(data, 8 * i + 2)) as i16,
            z: signed16(le_u16(data, 8 * i + 4)) as i16,
        }),
{
    lemma_whole_records(data.len() as int, 8, i);
}

/// Record `i` of a spherical payload is read from its own 12 bytes: depth is
/// the little-endian 32-bit value at byte 0, theta and phi the 16-bit values
/// at bytes 4 and 6, then come reflectivity and tag.
pub proof fn lemma_spherical_fields(data: Seq<u8>, i: int)
    requires
        0 <= i < data.len() / 12,
    ensures
        spherical_points(data).len() == data.len() / 12,
        12 * i + 12 <= data.len(),
        spherical_points(data)[i].reflectivity == data[12 * i + 8],
        spherical_points(data)[i].tag == data[12 * i + 9],
        spherical_points(data)[i].coords == (Coordinates::Spherical {
            depth: le_u32(data, 12 * i) as u32,
            theta: le_u16(data, 12 * i + 4) as u16,
            phi: le_u16(data, 12 * i + 6) as u16,
        }),
{
    lemma_whole_records(data.len() as int, 12, i);
}

/// Echo `k` of double-echo record `j` is the millimetre record at byte
/// `28 * j + 14 * k` of the payload.
pub proof fn lemma_double_echo_fields(data: Seq<u8>, j: int, k: int)
    requires
        0 <= j < data.len() / 28,
        0 <= k < 2,
    ensures
        double_echo_points(data).len() == 2 * (data.len() / 28),
        28 * j + 28 <= data.len(),
        double_echo_points(data)[2 * j + k].reflectivity == data[28 * j + 14 * k + 12],
        double_echo_points(data)[2 * j + k].tag == data[28 * j + 14 * k + 13],
        double_echo_points(data)[2 * j + k].coords == (Coordinates::Millimeters {
            x: signed32(le_u32(data, 28 * j + 14 * k)) as i32,
            y: signed32(le_u32(data, 28 * j + 14 * k + 4)) as i32,
            z: signed32(le_u32(data, 28 * j + 14 * k + 8)) as i32,
        }),
{
    lemma_whole_records(data.len() as int, 28, j);
}

/// Record `i` of a payload cut into records of `size` bytes lies wholly in
/// the payload.
proof fn lemma_whole_records(len: int, size: int, i: int)
    requires
        size > 0,
        len >= 0,
        0 <= i < len / size,
    ensures
        size * i + size <= len,
{
    vstd::arithmetic::div_mod::lemma_fundamental_div_mod(len, size);
    vstd::arithmetic::div_mod::lemma_mod_pos_bound(len, size);
    assert(size * i + size <= size * (len / size)) by (nonlinear_arith)
        requires
            size > 0,
            i < len / size,
    ;
}

} // verus!
