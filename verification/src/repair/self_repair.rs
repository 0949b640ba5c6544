//! The repair steps of a quiet slot. Each step currently has no effect.
use vstd::prelude::*;

verus! {

/// Checks whether a slot needs repair; has no effect.
pub fn check_slot_for_repair() {
}

/// Marks a slot as completed; has no effect.
pub fn mark_slot_completed() {
}

/// Sends a repair request; has no effect.
pub fn send_repair() {
}

/// Handles a repair response; has no effect.
pub fn handle_repair() {
}

} // verus!
