//! Data plane of a two-sided proxy tunnel: the directional proxy messages,
//! per-session backpressure, the Inlet's and the Outlet's session registries
//! and decisions, and the server's tunnel table.

pub mod backpressure;
pub mod config;
pub mod encoding;
pub mod frame;
pub mod inlet;
pub mod message;
pub mod outlet;
pub mod player;
pub mod text;
pub mod tunnel;
