//! A sparse world-state overlay for grid-based multi-agent planning:
//! hypothetical future states are evaluated by recording only the cells and
//! ships that change, with absent keys deferring to ground truth. The crate
//! holds the overlay store with its position index, a pooled-allocation
//! lifecycle for overlays, a last-write-wins merge protocol, a tick-scoped
//! reservation gate, and the per-ship retry/reservation controller.

pub mod grid;
pub mod sparse_map;
pub mod state_difference;
pub mod reservation;
pub mod ship_bot;
