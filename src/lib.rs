//! The background-work core of a URL shortener: short codes, the shared
//! redirect cache and counter, the duration grammar of its configuration, and
//! the handle of its worker pool.

pub mod cache;
pub mod codec;
pub mod config;
pub mod counter;
pub mod duration;
pub mod logger;
pub mod msgs;
pub mod pool;
pub mod structs;
pub mod tasks;
