//! Convert a human-entered file-size string (a decimal number with an
//! optional KB/MB/GB/TB suffix) into a canonical byte count, and render
//! that count as a five-field report: bytes, kilobytes, megabytes,
//! gigabytes and terabytes.

pub mod chars;
pub mod extract;
pub mod laws;
pub mod numeral;
pub mod report;
pub mod size;
pub mod text;
