//! A small gauge-metric service core.

pub mod bytes;
pub mod errors;
pub mod value;
pub mod model;
pub mod registry;
pub mod encode;
pub mod channel;
pub mod server;
pub mod laws;
