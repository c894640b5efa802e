//! Control-plane core for distributed battery energy-storage assets: the
//! physics step that headend and agents share, the SOC-safe dispatch gate,
//! the site-level allocator, the registry of agent streams with its parked
//! setpoints, the ingest pipeline, and the bootstrap responder.
//!
//! Every real-valued quantity (MW, MWh, percent, efficiency, seconds) is held
//! as a signed integer number of billionths: the value `q` is stored as
//! `q * 10^9`.  All arithmetic is exact integer arithmetic; wherever a
//! quotient is taken it is cut toward zero.  Identifiers are UUIDs held as
//! 128-bit numbers, and instants are milliseconds since the Unix epoch.
//!
//! Journal and transport stay outside: the functions here take what was read
//! and hand back what is to be written or sent.

pub mod agent;
pub mod agent_faults;
pub mod agents_view;
pub mod allocator;
pub mod bootstrap;
pub mod catalogue;
pub mod clock;
pub mod dispatch;
pub mod fixed;
pub mod headend;
pub mod ident;
pub mod idmap;
pub mod ingest;
pub mod journal;
pub mod model;
pub mod physics;
pub mod simulator;
pub mod soc_events;
pub mod streams;
pub mod views;
pub mod wire;
