# livox_sdk2

Client library for Livox SDK2 LiDARs (HAP, Mid-360 and relatives), with its
logic proved in Verus.

- `src/` — the verified library:
  - `wire`: little-endian integers of the wire format;
  - `points`: point records (Cartesian high/low, spherical, double echo) in
    the sensor's integer units, and the validity convention;
  - `packet`: the ethernet packet view (36-byte header, payload, point
    dispatch by `data_type`);
  - `device`: device reports, NUL-terminated strings, model names;
  - `sdk`: the start-up decisions and the device registry of a session.
- `app/` — the SDK's C API, its callbacks and lifecycle, and points in metres
  (floating point).
- `tests/` — tests of the library.
