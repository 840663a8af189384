//! Decoder for Garmin's FIT binary telemetry format.
//!
//! A file is a fixed header, a stream of definition and data records, and a two-byte
//! checksum. Definition records install field layouts in sixteen local message slots; data
//! records are decoded with the layout of their slot into typed values that honour each base
//! type's invalid sentinel and the layout's byte order.

pub mod error;
pub mod text;
pub mod value;
pub mod base_type;
pub mod header;
pub mod profile;
pub mod definition;
pub mod stream;
pub mod fit_file_raw;
pub mod fit_file;
