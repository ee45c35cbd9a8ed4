//! Client-side prediction, reconciliation and tick-synchronization core for a
//! tick-based multiplayer movement game: a per-client tick clock, local
//! movement prediction with server reconciliation, dead reckoning for remote
//! players, deterministic seed-driven world events, a bounded catch-up loop
//! that keeps the client's tick converged with the server's, and the message
//! dispatcher tying them together.
//!
//! Positions are fixed-point (thousandths of a world unit), so every
//! movement step is exact integer arithmetic.

pub mod clock;
pub mod context;
pub mod enemy;
pub mod fixed;
pub mod history;
pub mod messages;
pub mod movement;
pub mod objects;
pub mod pastpos;
pub mod player;
pub mod pool;
pub mod rng;
