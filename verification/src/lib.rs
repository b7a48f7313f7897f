//! BITS, a broker for intelligent task scheduling.

pub mod actions;
pub mod bits;
pub mod circuit_breaker;
pub mod config;
pub mod db;
pub mod dispatcher;
pub mod ecmwf;
pub mod error;
pub mod job;
pub mod jobs;
pub mod json;
pub mod metrics;
pub mod numeral;
pub mod python;
pub mod request_id;
pub mod result;
pub mod routing;
pub mod table;
pub mod text;
pub mod time;
