//! Event-normalization core for a rotary-dial input daemon.
//!
//! The library turns a noisy stream of raw rotation deltas and button
//! transitions into stable volume notches and click events: it suppresses
//! spurious direction reversals caused by mechanical backlash, adapts its
//! notch sensitivity to rotation speed, times out idle and stuck-click
//! states, and coalesces bursts of semantic events before they are
//! published. The state machine itself performs no I/O; it reports the
//! haptic triggers and semantic emissions each step decides on, and the
//! surrounding process carries them out.

use vstd::prelude::*;

pub mod model;
pub mod dial;
pub mod batcher;
pub mod laws;

pub use crate::batcher::EventBatcher;
pub use crate::batcher::SemanticEvent;
pub use crate::batcher::count_labels;
pub use crate::dial::ClickEffects;
pub use crate::dial::DialState;
pub use crate::dial::RotateEffects;
pub use crate::dial::TickEffects;
pub use crate::model::DialMode;

verus! {

/// Milliseconds of silence after which the dial falls back to `Idle`.
pub const IDLE_TIMEOUT_MS: u64 = 30000;

/// Milliseconds a held click may last before it is force-aborted.
pub const CLICK_TIMEOUT_MS: u64 = 2000;

/// Width in milliseconds of the event-batching window.
pub const BATCH_WINDOW_MS: u64 = 250;

/// Minimum milliseconds between two volume emissions that do not cross a
/// decade boundary.
pub const EMIT_INTERVAL_MS: u64 = 250;

/// Consecutive same-direction events that confirm a reversal as real.
pub const BACKLASH_THRESHOLD: u32 = 25;

/// Consecutive original-direction events that cancel a suspected reversal.
pub const BACKLASH_CANCEL_THRESHOLD: u32 = BACKLASH_THRESHOLD / 5;

} // verus!
