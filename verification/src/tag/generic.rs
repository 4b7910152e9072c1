//! Generic value types shared by several tags.

use crate::tag::color::Color;
use vstd::prelude::*;

verus! {

/// A two-byte version value, stored as two raw bytes.
#[derive(Debug, Clone, Copy, PartialEq, Eq, Structural)]
pub struct Version {
    pub major: u8,
    pub minor: u8,
}

/// A time-based position, measured in milliseconds from the beginning of the
/// track.
#[derive(Debug, Clone, Copy, PartialEq, Eq, Structural)]
pub struct Position {
    pub millis: u32,
}

/// A cue point.
#[derive(Debug, Clone, PartialEq)]
pub struct Cue {
    pub index: u8,
    pub position: Position,
    pub color: Color,
    pub label: String,
}

/// A saved loop.
#[derive(Debug, Clone, PartialEq)]
pub struct Loop {
    pub index: u8,
    pub start_position: Position,
    pub end_position: Position,
    pub color: Color,
    pub is_locked: bool,
    pub label: String,
}

/// A Flip performance.
#[derive(Debug, Clone, PartialEq)]
pub struct Flip {
    pub index: u8,
    pub is_enabled: bool,
    pub label: String,
    pub is_loop: bool,
    pub actions: Vec<FlipAction>,
}

/// An action inside of a [`Flip`] performance.
#[derive(Debug, Clone, PartialEq)]
pub enum FlipAction {
    Censor(CensorFlipAction),
    Jump(JumpFlipAction),
    Unknown(UnknownFlipAction),
}

/// A "Censor" action inside of a [`Flip`] performance.
///
/// The wire format stores three big-endian IEEE-754 doubles; they are kept
/// here as their raw 64-bit patterns so that re-encoding is bit-exact.
#[derive(Debug, Clone, Copy, PartialEq, Eq, Structural)]
pub struct CensorFlipAction {
    /// Bit pattern of the censoring start position in seconds.
    pub start_position_seconds: u64,
    /// Bit pattern of the censoring end position in seconds.
    pub end_position_seconds: u64,
    /// Bit pattern of the playback speed factor (usually -1.0).
    pub speed_factor: u64,
}

/// A "Jump" action inside of a [`Flip`] performance.
///
/// The wire format stores two big-endian IEEE-754 doubles; they are kept here
/// as their raw 64-bit patterns so that re-encoding is bit-exact.
#[derive(Debug, Clone, Copy, PartialEq, Eq, Structural)]
pub struct JumpFlipAction {
    /// Bit pattern of the jump source position in seconds.
    pub source_position_seconds: u64,
    /// Bit pattern of the jump target position in seconds.
    pub target_position_seconds: u64,
}

/// An unknown action inside of a [`Flip`] performance, preserved verbatim.
#[derive(Debug, Clone, PartialEq)]
pub struct UnknownFlipAction {
    pub id: u8,
    pub data: Vec<u8>,
}

/// True when two flip actions carry the same data.
pub open spec fn action_like(a: FlipAction, b: FlipAction) -> bool {
    match (a, b) {
        (FlipAction::Jump(x), FlipAction::Jump(y)) => x == y,
        (FlipAction::Censor(x), FlipAction::Censor(y)) => x == y,
        (FlipAction::Unknown(x), FlipAction::Unknown(y)) => x.id == y.id && x.data@ == y.data@,
        _ => false,
    }
}

/// True when two flip performances carry the same data.
pub open spec fn flip_like(a: Flip, b: Flip) -> bool {
    &&& a.index == b.index
    &&& a.is_enabled == b.is_enabled
    &&& a.label == b.label
    &&& a.is_loop == b.is_loop
    &&& a.actions@.len() == b.actions@.len()
    &&& forall|k: int|
        0 <= k < a.actions@.len() ==> action_like(#[trigger] a.actions@[k], b.actions@[k])
}

/// Copies one flip action.
pub fn clone_action(action: &FlipAction) -> (r: FlipAction)
    ensures
        action_like(r, *action),
{
    match action {
        FlipAction::Jump(x) => FlipAction::Jump(*x),
        FlipAction::Censor(x) => FlipAction::Censor(*x),
        FlipAction::Unknown(x) => FlipAction::Unknown(
            UnknownFlipAction { id: x.id, data: vstd::slice::slice_to_vec(x.data.as_slice()) },
        ),
    }
}

/// Copies one flip performance.
pub fn clone_flip(flip: &Flip) -> (r: Flip)
    ensures
        flip_like(r, *flip),
{
    let mut actions: Vec<FlipAction> = Vec::new();
    let mut k: usize = 0;
    while k < flip.actions.len()
        invariant
            k <= flip.actions@.len(),
            actions@.len() == k,
            forall|t: int| 0 <= t < k ==> action_like(#[trigger] actions@[t], flip.actions@[t]),
        decreases flip.actions@.len() - k,
    {
        actions.push(clone_action(&flip.actions[k]));
        k = k + 1;
    }
    Flip {
        index: flip.index,
        is_enabled: flip.is_enabled,
        label: flip.label.clone(),
        is_loop: flip.is_loop,
        actions,
    }
}

/// Copies one cue point.
pub fn clone_cue(cue: &Cue) -> (r: Cue)
    ensures
        r == *cue,
{
    Cue { index: cue.index, position: cue.position, color: cue.color, label: cue.label.clone() }
}

/// Copies one saved loop.
pub fn clone_loop(lp: &Loop) -> (r: Loop)
    ensures
        r == *lp,
{
    Loop {
        index: lp.index,
        start_position: lp.start_position,
        end_position: lp.end_position,
        color: lp.color,
        is_locked: lp.is_locked,
        label: lp.label.clone(),
    }
}

} // verus!
