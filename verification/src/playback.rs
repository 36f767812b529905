//! Debugger playback: whether a session is stopped, running step by step on
//! a timer, or paused, and what a step taken while running does to that.
use std::collections::HashSet;
use vstd::prelude::*;

use crate::types::NodeId;

verus! {

broadcast use vstd::std_specs::hash::group_hash_axioms;

/// The playback state of the debugger.
#[derive(Clone, Copy, PartialEq, Eq, Structural, Debug)]
pub enum PlaybackMode {
    Stopped,
    Running,
    Paused,
}

/// The playback state after a step taken while running: a session that
/// has finished stops; a step that ran a node with a breakpoint pauses;
/// otherwise playback keeps running.
pub open spec fn spec_after_running_step(finished: bool, stepped: Option<NodeId>, breakpoints: Set<NodeId>) -> PlaybackMode {
    if finished {
        PlaybackMode::Stopped
    } else if stepped matches Some(id) && breakpoints.contains(id) {
        PlaybackMode::Paused
    } else {
        PlaybackMode::Running
    }
}

/// The playback state after a step taken while running (see
/// `spec_after_running_step`).
pub fn after_running_step(finished: bool, stepped: Option<NodeId>, breakpoints: &HashSet<NodeId>) -> (m:
    PlaybackMode)
    ensures
        m == spec_after_running_step(finished, stepped, breakpoints@),
{
    if finished {
        PlaybackMode::Stopped
    } else {
        match stepped {
            Some(id) => if breakpoints.contains(&id) {
                PlaybackMode::Paused
            } else {
                PlaybackMode::Running
            },
            None => PlaybackMode::Running,
        }
    }
}

} // verus!
