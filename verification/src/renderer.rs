//! The renderer's lifecycle: a three-state machine driven by the audio
//! device and the snapshot mailbox.
//!
//! The floating-point sample work of a callback happens outside; what
//! is decided here is exactly when the renderer starts consuming
//! snapshots and when it starts producing sound.

use vstd::prelude::*;

verus! {

/// Lifecycle of the renderer.
#[derive(Debug, Clone, Copy, PartialEq, Eq, Structural)]
pub enum RendererState {
    Uninitialized,
    WaitingForFirstSnapshot,
    Running,
}

/// What a lifecycle step reacts to.
#[derive(Debug, Clone, Copy, PartialEq, Eq, Structural)]
pub enum RendererEvent {
    /// The audio device opened and the stream started.
    DeviceOpened,
    /// A callback found a snapshot in the mailbox and applied it.
    SnapshotApplied,
    /// A callback found the mailbox empty.
    NoSnapshot,
}

/// One lifecycle step: the device opening arms the renderer, the first
/// applied snapshot starts it, and an empty mailbox never changes the
/// state — the previous DSP state simply stays in effect.
pub fn next_state(s: RendererState, e: RendererEvent) -> (r: RendererState)
    ensures
        r == (match (s, e) {
            (RendererState::Uninitialized, RendererEvent::DeviceOpened) => RendererState::WaitingForFirstSnapshot,
            (RendererState::WaitingForFirstSnapshot, RendererEvent::SnapshotApplied) => RendererState::Running,
            _ => s,
        }),
        e is NoSnapshot ==> r == s,
        s is Running ==> r is Running,
{
    match (s, e) {
        (RendererState::Uninitialized, RendererEvent::DeviceOpened) => RendererState::WaitingForFirstSnapshot,
        (RendererState::WaitingForFirstSnapshot, RendererEvent::SnapshotApplied) => RendererState::Running,
        _ => s,
    }
}

} // verus!
