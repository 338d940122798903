//! Authoritative room engine for a coin-pusher arcade game.
//!
//! Rooms are created and driven by a gateway ("Node"). Each room owns a
//! fixed-step simulation: an oscillating pusher platform, a table of coins,
//! a queue of pending gateway events, and a delta-snapshot encoder that
//! streams coin positions back to the gateway.
//!
//! All quantities in this crate are fixed-point integers: lengths are in
//! units of 10^-4 m, rates in units of 10^-4 Hz, and times in microseconds.
//! The rigid-body integrator itself runs outside this crate; callers feed
//! each tick's observed coin states back in through [`room::RoomManager`]'s
//! begin/finish tick pair, and every decision taken on those observations
//! is made here.
pub mod net;
pub mod protocol;
pub mod room;
