//! Verified core of a GNSS receiver logger: command encoding, sentence
//! monitoring, hour buckets and the conversion workflow's decisions.

pub mod args;
pub mod converter;
pub mod hours;
pub mod ingest;
pub mod nmea;
pub mod products;
pub mod text;
pub mod ubx;
pub mod workflow;
