//! Firmware core of a HID report injector: a parser for HID report
//! descriptors, a small least-recently-used cache of parsed descriptors, and
//! the report, command and position helpers around them.
//!
//! Every function here is verified against its contract. Fixed-capacity
//! storage comes from `heapless`; the contracts that are taken on trust about
//! it are gathered in [`bounded`] and [`bounded_map`]. What holds of every
//! parse and of every sequence of cache operations is proved in
//! [`descriptor_laws`] and [`cache_laws`].

pub mod bounded;
pub mod bounded_map;
pub mod cache_laws;
pub mod commands;
pub mod descriptor;
pub mod descriptor_cache;
pub mod descriptor_laws;
pub mod hid;
pub mod protocol;
pub mod recoil;
pub mod saturating;
pub mod scan;
pub mod state;
pub mod text;
