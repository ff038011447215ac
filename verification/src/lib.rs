//! Spatially triggered timers for a live session: the definitions and their
//! indices, the trigger evaluator, the pending-start state machine and the
//! decisions of the event loop that drives them.

pub mod addon;
pub mod bhtimer;
pub mod geometry;
pub mod store;
pub mod taimistate;
