//! Validation of IPv4 addresses written in dotted-decimal notation.
//!
//! `ipv4::valid_ipv4` scans a string once and accepts exactly the strings of four octets
//! of one to three decimal digits, each at most 255, joined by `.`. Addresses with fewer
//! than four octets are rejected, and the last octet is range-checked like the others.
//! `notation` holds the mathematical model that its contract is stated in.

pub mod ipv4;
pub mod notation;
