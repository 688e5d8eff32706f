//! Multi-station internet radio: wire codec, station engine and client registry.

pub mod codec;
pub mod iter_mem;
pub mod station;
pub mod client;
pub mod stations;
pub mod reason;
pub mod control;
pub mod pacer;
pub mod admin;
