//! Kinds of control messages the ingest side understands.

use vstd::prelude::*;

verus! {

/// Transport commands a control message can carry.
#[derive(Debug, Clone, PartialEq, Eq)]
pub enum TransportCmdType {
    Play(String),
    Pause(String),
    Mute(String),
    Exit(String),
    Stop(String),
}

/// What one control datagram means: a serialized scene, or a transport
/// command.
#[derive(Debug, Clone, PartialEq, Eq)]
pub enum OscChannelType {
    SceneData(String),
    TransportCmd(TransportCmdType),
}

} // verus!
