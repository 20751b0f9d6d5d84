//! Decoder and aggregation engine for AIS position reports carried in
//! NMEA 0183 sentences.
//!
//! The decoder turns one text line into a typed report: it validates the
//! sentence checksum, un-armors the six-bit payload and extracts the
//! bit-level fields of class-A position reports and base-station reports.
//! The engine keeps, per vessel, the farthest distance observed since the
//! last day boundary and rotates its records when the day changes.
//!
//! Coordinates are kept as the raw signed fixed-point values of the wire
//! format (1/600000 degree per unit); distances are plain integers in
//! meters. Converting those to floating-point degrees or kilometers, and
//! all file output, is left to the surrounding application.

pub mod aismod;
pub mod bits;
pub mod engine;
