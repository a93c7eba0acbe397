//! Vanity search for Tor v3 onion addresses.

pub mod app;
pub mod base32;
pub mod batch;
pub mod bytefield;
pub mod certificate;
pub mod crypto;
pub mod curve;
pub mod device;
pub mod edwards;
pub mod field;
pub mod gf;
pub mod gpu;
pub mod group;
pub mod invert;
pub mod primes;
pub mod product;
pub mod radix;
pub mod rate;
pub mod ring;
pub mod search;
pub mod stats;
pub mod text;
pub mod ui;
