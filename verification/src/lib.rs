//! Verified core of a Livox SDK2 client: decoding of the LiDAR ethernet
//! packets and their point records, the registry of detected devices, and
//! the decisions of the SDK start-up sequence.

pub mod wire;
pub mod points;
pub mod packet;
pub mod device;
pub mod sdk;
