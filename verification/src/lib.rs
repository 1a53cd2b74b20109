//! Protocol core of a small HTTP service that answers three questions about
//! an IP address: which network announces it, what its reverse-DNS name is,
//! and who the caller is behind a chain of proxies.
//!
//! Everything here is pure. The transport, the clock and the two lookups
//! live with the caller, which hands in plain values and gets plain values
//! back:
//!
//! - `handlers` finds the route of a request and says what is to be done
//!   for it, up to the response;
//! - `x_forwarded_for` reads the chain of addresses a request came through;
//! - `cache` derives the `Cache-Control` policy from the expiry of the data;
//! - `json_result` wraps payloads and errors into the JSON envelope;
//! - `records` holds the payloads and writes them as JSON;
//! - `ip` reads and writes IP addresses, and `roundtrip` proves that what
//!   it writes it reads back;
//! - `text` holds what all of them need of characters and digits.

pub mod cache;
pub mod handlers;
pub mod ip;
pub mod json_result;
pub mod records;
pub mod roundtrip;
pub mod text;
pub mod x_forwarded_for;
