//! Rules for measuring the throughput and latency of one network video
//! resource: a direct HTTP asset, an HLS playlist, or a multicast proxy.
//!
//! The library decides and computes; it performs no request. A caller probes
//! and downloads, hands over what came back as plain values, and is told what
//! to do next and, in the end, the verdict.
//!
//! - [`classify`] tells which kind of resource a URL names, from the URL and
//!   from what a metadata-only probe found.
//! - [`m3u8_parser`] interprets the text of a playlist: its media segments,
//!   or the variant with the highest bandwidth.
//! - [`resolver`] walks from a root playlist down to media segments, one
//!   fetch at a time, and never visits a URL twice.
//! - [`speed_test`] turns byte counts and elapsed time into the figures of a
//!   verdict.
//! - [`url_parts`] resolves playlist references against a base URL.
//! - [`pattern`], [`text`] and [`decimal`] hold the text rules underneath.

pub mod classify;
pub mod decimal;
pub mod m3u8_parser;
pub mod pattern;
pub mod resolver;
pub mod text;
pub mod url_parts;
