//! A non-blocking scheduler for expensive, asynchronous generation of
//! spatial chunks, with the game rules that feed on generated terrain.
//!
//! The scheduler accepts requests keyed by 2D coordinate, keeps at most one
//! job in flight per key, and lets workers report through a channel that
//! the caller drains without blocking; cancellation is cooperative and
//! best-effort.  Beside it live the crafting rules — recipes claiming
//! items out of inventory slots — and the wildlife spawn rules that pick
//! what to scatter over a freshly generated chunk.

pub mod channel;
pub mod craft;
pub mod key;
pub mod laws;
pub mod recipe;
pub mod registry;
pub mod scheduler;
pub mod token;
pub mod wildlife;
