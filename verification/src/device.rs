//! Devices reported by the SDK.

use vstd::prelude::*;
use vstd::utf8::{decode_utf8, valid_utf8};

verus! {

/// What a [`DeviceInfo`] holds, with its strings as character sequences.
pub struct DeviceView {
    pub handle: u32,
    pub dev_type: u8,
    pub sn: Seq<char>,
    pub lidar_ip: Seq<char>,
}

/// A LiDAR device discovered and connected by the SDK.
///
/// The SDK reports this through the info-change callback for every device it
/// detects on the network: any `lidar_ip` appearing here is a live device the
/// SDK is talking to.
#[derive(Debug, PartialEq, Eq)]
pub struct DeviceInfo {
    /// SDK-internal handle used to address this device in control calls.
    pub handle: u32,
    /// Device type (e.g. Mid-360 = 9, HAP = 15).
    pub dev_type: u8,
    /// Serial number of the device.
    pub sn: String,
    /// IP address of the device on the network.
    pub lidar_ip: String,
}

impl View for DeviceInfo {
    type V = DeviceView;

    open spec fn view(&self) -> DeviceView {
        DeviceView { handle: self.handle, dev_type: self.dev_type, sn: self.sn@, lidar_ip: self.lidar_ip@ }
    }
}

impl Clone for DeviceInfo {
    fn clone(&self) -> (r: Self)
        ensures
            r@ == self@,
    {
        DeviceInfo {
            handle: self.handle,
            dev_type: self.dev_type,
            sn: self.sn.clone(),
            lidar_ip: self.lidar_ip.clone(),
        }
    }
}

/// Human-readable name of a device type; "Unknown" for codes without one.
pub open spec fn model_name_of(dev_type: u8) -> Seq<char> {
    if dev_type == 0 {
        "Hub"@
    } else if dev_type == 1 {
        "Mid-40"@
    } else if dev_type == 2 {
        "Tele"@
    } else if dev_type == 3 {
        "Horizon"@
    } else if dev_type == 6 {
        "Mid-70"@
    } else if dev_type == 7 {
        "Avia"@
    } else if dev_type == 9 {
        "Mid-360"@
    } else if dev_type == 10 {
        "Industrial-HAP"@
    } else if dev_type == 15 {
        "HAP"@
    } else if dev_type == 16 {
        "PA"@
    } else if dev_type == 35 {
        "Mid-360s"@
    } else if dev_type == 40 {
        "Avia2"@
    } else {
        "Unknown"@
    }
}

impl DeviceInfo {
    /// Human-readable device type name.
    pub fn model_name(&self) -> (r: &'static str)
        ensures
            r@ == model_name_of(self.dev_type),
    {
        match self.dev_type {
            0 => "Hub",
            1 => "Mid-40",
            2 => "Tele",
            3 => "Horizon",
            6 => "Mid-70",
            7 => "Avia",
            9 => "Mid-360",
            10 => "Industrial-HAP",
            15 => "HAP",
            16 => "PA",
            35 => "Mid-360s",
            40 => "Avia2",
            _ => "Unknown",
        }
    }

    /// The device that an info-change report describes: `sn` and `lidar_ip`
    /// are the SDK's fixed-size, NUL-terminated character arrays.
    pub fn from_raw(handle: u32, dev_type: u8, sn: &[u8], lidar_ip: &[u8]) -> (r: DeviceInfo)
        ensures
            r.handle == handle,
            r.dev_type == dev_type,
            is_c_string_text(r.sn@, sn@),
            is_c_string_text(r.lidar_ip@, lidar_ip@),
    {
        DeviceInfo { handle, dev_type, sn: cstr(sn), lidar_ip: cstr(lidar_ip) }
    }
}

/// The bytes before the first NUL, or all bytes when there is none.
pub open spec fn c_string_bytes(s: Seq<u8>) -> Seq<u8>
    decreases s.len(),
{
    if s.len() == 0 || s[0] == 0 {
        Seq::empty()
    } else {
        seq![s[0]] + c_string_bytes(s.drop_first())
    }
}

/// The text of a NUL-terminated character array, decoded as by
/// [`string_from_utf8_lossy`].
pub open spec fn c_string_text(s: Seq<u8>) -> Seq<char> {
    utf8_lossy(c_string_bytes(s))
}

/// What is known of `t` as the text of the character array `s`: it is
/// [`c_string_text`] of `s`; where the bytes before the first NUL are valid
/// UTF-8 it is their decoding; and it holds no NUL character.
pub open spec fn is_c_string_text(t: Seq<char>, s: Seq<u8>) -> bool {
    &&& t == c_string_text(s)
    &&& valid_utf8(c_string_bytes(s)) ==> t == decode_utf8(c_string_bytes(s))
    &&& !t.contains('\0')
}

/// What `String::from_utf8_lossy` makes of `bytes`: each invalid sequence
/// becomes U+FFFD.
pub uninterp spec fn utf8_lossy(bytes: Seq<u8>) -> Seq<char>;

/// Calls `String::from_utf8_lossy` and takes the result as a `String`.
/// Claimed of it: the result is a function of the bytes alone, valid
/// UTF-8 is decoded unchanged, and without a NUL byte there is no NUL
/// character (valid sequences decode as they are, invalid ones become
/// U+FFFD). What it makes of invalid sequences is left unstated.
#[verifier::external_body]
fn string_from_utf8_lossy(bytes: &[u8]) -> (r: String)
    ensures
        r@ == utf8_lossy(bytes@),
        valid_utf8(bytes@) ==> r@ == decode_utf8(bytes@),
        !bytes@.contains(0u8) ==> !r@.contains('\0'),
{
    String::from_utf8_lossy(bytes).into_owned()
}

proof fn lemma_c_string_bytes(s: Seq<u8>, n: int)
    requires
        0 <= n <= s.len(),
        forall|i: int| 0 <= i < n ==> s[i] != 0,
        n < s.len() ==> s[n] == 0,
    ensures
        c_string_bytes(s) == s.take(n),
    decreases s.len(),
{
    if n == 0 {
        assert(s.take(0) =~= Seq::<u8>::empty());
    } else {
        let t = s.drop_first();
        assert forall|i: int| 0 <= i < n - 1 implies t[i] != 0 by {
            assert(s[i + 1] != 0);
        }
        lemma_c_string_bytes(t, n - 1);
        assert(seq![s[0]] + t.take(n - 1) =~= s.take(n));
    }
}

/// Number of bytes before the first NUL, or the length when there is none.
pub fn c_string_len(bytes: &[u8]) -> (n: usize)
    ensures
        n <= bytes@.len(),
        forall|i: int| 0 <= i < n ==> bytes@[i] != 0,
        n < bytes@.len() ==> bytes@[n as int] == 0,
        bytes@.take(n as int) == c_string_bytes(bytes@),
{
    let mut n: usize = 0;
    while n < bytes.len() && bytes[n] != 0
        invariant
            n <= bytes@.len(),
            forall|i: int| 0 <= i < n ==> bytes@[i] != 0,
        decreases bytes@.len() - n,
    {
        n = n + 1;
    }
    proof {
        lemma_c_string_bytes(bytes@, n as int);
    }
    n
}

/// Reads a NUL-terminated character array (up to `bytes.len()` bytes).
pub fn cstr(bytes: &[u8]) -> (r: String)
    ensures
        is_c_string_text(r@, bytes@),
{
    let n = c_string_len(bytes);
    let prefix = vstd::slice::slice_subrange(bytes, 0, n);
    assert(prefix@ == bytes@.take(n as int));
    assert(!prefix@.contains(0u8));
    string_from_utf8_lossy(prefix)
}

} // verus!
