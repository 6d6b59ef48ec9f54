//! Per-player input history and prediction queue for frame-based rollback
//! networking.
//!
//! Each participant of a lockstep/rollback session owns one
//! [`input_queue::InputQueue`]: a fixed-capacity ring buffer of
//! [`game_input::GameInput`] records that answers "what input applies at
//! frame N" even before the true input has arrived (by predicting that the
//! last known input repeats), detects the earliest frame at which a
//! prediction diverged from the later-confirmed truth, and reclaims storage
//! for frames that every peer has acknowledged.

pub mod game_input;
pub mod input_queue;
