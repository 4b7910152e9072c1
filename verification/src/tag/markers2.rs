//! The `Serato Markers2` tag stores cue points, saved loops, flips, the
//! track color and the beatgrid-lock state as named sub-markers inside a
//! base64-encoded body.
//!
//! Some of this information is also stored in the legacy `Serato Markers_`
//! tag; when the two contradict each other, Serato prefers `Serato
//! Markers_`.

use crate::error::Error;
use crate::tag::color::Color;
use crate::tag::format::{b64_lines, b64_lines_len, base64_encode};
use crate::tag::generic::{
    clone_cue, clone_flip, clone_loop, flip_like, CensorFlipAction, Cue, Flip, FlipAction,
    JumpFlipAction, Loop, Position, UnknownFlipAction, Version,
};
use crate::tag::util::{
    be_u32_at, be_u32_bytes, be_u64_bytes, color_bytes, take_be_u32, take_be_u64, take_version,
    version_bytes, write_be_u32, write_be_u64, write_color, write_version,
};
use crate::util::{nul_free, take_utf8};
use vstd::prelude::*;
use vstd::utf8::encode_utf8;

verus! {

/// A sub-marker in the `Serato Markers2` tag: a NUL-terminated ASCII name,
/// a length and a payload whose layout depends on the name.
#[derive(Debug, Clone, PartialEq)]
pub enum Marker {
    Unknown(UnknownMarker),
    Color(TrackColorMarker),
    BPMLock(BPMLockMarker),
    Cue(Cue),
    Loop(Loop),
    Flip(Flip),
}

/// A sub-marker with a name this library has no parser for; its payload is
/// preserved verbatim so that it survives a decode-encode round trip.
#[derive(Debug, Clone, PartialEq)]
pub struct UnknownMarker {
    pub name: String,
    pub data: Vec<u8>,
}

/// A `COLOR` sub-marker, describing the track's color.
#[derive(Debug, Clone, Copy, PartialEq, Eq, Structural)]
pub struct TrackColorMarker {
    pub color: Color,
}

/// A `BPMLOCK` sub-marker: whether the beatgrid is locked.
#[derive(Debug, Clone, Copy, PartialEq, Eq, Structural)]
pub struct BPMLockMarker {
    pub is_locked: bool,
}

/// Represents the `Serato Markers2` tag.
#[derive(Debug, Clone, PartialEq)]
pub struct Markers2 {
    /// The tag version; `None` only when the tag was read from an Ogg
    /// comment, which carries no version prefix.
    pub version: Option<Version>,
    /// The total byte length of the original tag data, padding included.
    pub size: usize,
    /// The decoded tag content.
    pub content: Markers2Content,
}

/// The decoded, base64-free content of the `Serato Markers2` tag.
#[derive(Debug, Clone, PartialEq)]
pub struct Markers2Content {
    pub version: Version,
    pub markers: Vec<Marker>,
}

/// The name bytes of the `BPMLOCK` sub-marker.
pub open spec fn bpmlock_name_bytes() -> Seq<u8> {
    seq![0x42u8, 0x50u8, 0x4Du8, 0x4Cu8, 0x4Fu8, 0x43u8, 0x4Bu8]
}

/// The name bytes of the `COLOR` sub-marker.
pub open spec fn color_name_bytes() -> Seq<u8> {
    seq![0x43u8, 0x4Fu8, 0x4Cu8, 0x4Fu8, 0x52u8]
}

/// The name bytes of the `CUE` sub-marker.
pub open spec fn cue_name_bytes() -> Seq<u8> {
    seq![0x43u8, 0x55u8, 0x45u8]
}

/// The name bytes of the `LOOP` sub-marker.
pub open spec fn loop_name_bytes() -> Seq<u8> {
    seq![0x4Cu8, 0x4Fu8, 0x4Fu8, 0x50u8]
}

/// The name bytes of the `FLIP` sub-marker.
pub open spec fn flip_name_bytes() -> Seq<u8> {
    seq![0x46u8, 0x4Cu8, 0x49u8, 0x50u8]
}

/// The wire byte of a boolean.
pub open spec fn m2_bool_byte(b: bool) -> u8 {
    if b {
        0x01u8
    } else {
        0x00u8
    }
}

/// The wire form of one flip action: its id byte, a length field and the
/// payload.
pub open spec fn m2_action_bytes(a: FlipAction) -> Seq<u8> {
    match a {
        FlipAction::Jump(j) => seq![0x00u8] + be_u32_bytes(16) + be_u64_bytes(
            j.source_position_seconds,
        ) + be_u64_bytes(j.target_position_seconds),
        FlipAction::Censor(c) => seq![0x01u8] + be_u32_bytes(24) + be_u64_bytes(
            c.start_position_seconds,
        ) + be_u64_bytes(c.end_position_seconds) + be_u64_bytes(c.speed_factor),
        FlipAction::Unknown(u) => seq![u.id] + be_u32_bytes(u.data@.len() as u32) + u.data@,
    }
}

/// The concatenated wire forms of a sequence of flip actions.
pub open spec fn m2_actions_bytes(s: Seq<FlipAction>) -> Seq<u8>
    decreases s.len(),
{
    if s.len() == 0 {
        Seq::empty()
    } else {
        m2_action_bytes(s.first()) + m2_actions_bytes(s.drop_first())
    }
}

/// Concatenation distributes over appending one action at the end.
pub proof fn lemma_m2_actions_bytes_push(s: Seq<FlipAction>, a: FlipAction)
    ensures
        m2_actions_bytes(s.push(a)) == m2_actions_bytes(s) + m2_action_bytes(a),
    decreases s.len(),
{
    if s.len() == 0 {
        assert(s.push(a).drop_first() =~= Seq::<FlipAction>::empty());
        assert(s.push(a).first() == a);
        assert(m2_actions_bytes(Seq::<FlipAction>::empty()) == Seq::<u8>::empty());
        assert(m2_actions_bytes(s.push(a)) =~= m2_actions_bytes(s) + m2_action_bytes(a));
    } else {
        assert(s.push(a).drop_first() =~= s.drop_first().push(a));
        lemma_m2_actions_bytes_push(s.drop_first(), a);
        assert(m2_actions_bytes(s.push(a)) =~= m2_actions_bytes(s) + m2_action_bytes(a));
    }
}

/// The value an action contributes to the `FLIP` sub-marker's length field.
///
/// An unknown action contributes its payload length plus one byte, not its
/// full five-byte header; this mirrors the wire format's writer.
pub open spec fn flip_action_size(a: FlipAction) -> int {
    match a {
        FlipAction::Jump(_) => 21,
        FlipAction::Censor(_) => 29,
        FlipAction::Unknown(u) => u.data@.len() as int + 1,
    }
}

/// The length-field contribution of a sequence of flip actions.
pub open spec fn flip_actions_size(s: Seq<FlipAction>) -> int
    decreases s.len(),
{
    if s.len() == 0 {
        0
    } else {
        flip_actions_size(s.drop_last()) + flip_action_size(s.last())
    }
}

/// Every action's size contribution is at least one byte.
pub proof fn lemma_flip_actions_size_bounds(s: Seq<FlipAction>)
    ensures
        flip_actions_size(s) >= s.len(),
    decreases s.len(),
{
    if s.len() > 0 {
        lemma_flip_actions_size_bounds(s.drop_last());
    }
}

/// The length field of a sub-marker's wire form.
pub open spec fn m2_marker_size(m: Marker) -> int {
    match m {
        Marker::Unknown(u) => u.data@.len() as int,
        Marker::Color(_) => 4,
        Marker::BPMLock(_) => 1,
        Marker::Cue(c) => 13 + encode_utf8(c.label@).len() as int,
        Marker::Loop(l) => 21 + encode_utf8(l.label@).len() as int,
        Marker::Flip(f) => 9 + encode_utf8(f.label@).len() as int + flip_actions_size(f.actions@),
    }
}

/// True when a sub-marker's lengths fit the wire format's fields.
pub open spec fn m2_marker_wf(m: Marker) -> bool {
    &&& 0 <= m2_marker_size(m) <= 0xFFFFFFFF
    &&& match m {
        Marker::Flip(f) => {
            &&& f.actions@.len() <= 0xFFFFFFFF
            &&& forall|k: int|
                0 <= k < f.actions@.len() ==> (#[trigger] f.actions@[k] matches FlipAction::Unknown(
                    u,
                ) ==> u.data@.len() <= 0xFFFFFFFF)
        },
        _ => true,
    }
}

/// The payload body of a `CUE` sub-marker, behind its length field.
pub open spec fn cue_body_bytes(c: Cue) -> Seq<u8> {
    seq![0u8, c.index] + be_u32_bytes(c.position.millis) + seq![0u8] + color_bytes(c.color) + seq![
        0u8,
        0u8,
    ] + encode_utf8(c.label@) + seq![0u8]
}

/// The payload body of a `LOOP` sub-marker, behind its length field.
pub open spec fn loop_body_bytes(l: Loop) -> Seq<u8> {
    seq![0u8, l.index] + be_u32_bytes(l.start_position.millis) + be_u32_bytes(
        l.end_position.millis,
    ) + seq![0xFFu8, 0xFFu8, 0xFFu8, 0xFFu8, 0u8] + color_bytes(l.color) + seq![0u8] + seq![
        m2_bool_byte(l.is_locked),
    ] + encode_utf8(l.label@) + seq![0u8]
}

/// The payload body of a `FLIP` sub-marker, behind its length field.
pub open spec fn flip_body_bytes(f: Flip) -> Seq<u8> {
    seq![0u8, f.index, m2_bool_byte(f.is_enabled)] + encode_utf8(f.label@) + seq![0u8] + seq![
        m2_bool_byte(f.is_loop),
    ] + be_u32_bytes(f.actions@.len() as u32) + m2_actions_bytes(f.actions@)
}

/// The wire form of one sub-marker: name, NUL, length field and payload.
pub open spec fn m2_marker_bytes(m: Marker) -> Seq<u8> {
    match m {
        Marker::Unknown(u) => encode_utf8(u.name@) + seq![0u8] + be_u32_bytes(
            u.data@.len() as u32,
        ) + u.data@,
        Marker::Color(c) => color_name_bytes() + seq![0u8] + be_u32_bytes(4) + seq![0u8]
            + color_bytes(c.color),
        Marker::BPMLock(b) => bpmlock_name_bytes() + seq![0u8] + be_u32_bytes(1) + seq![
            m2_bool_byte(b.is_locked),
        ],
        Marker::Cue(c) => cue_name_bytes() + seq![0u8] + be_u32_bytes(m2_marker_size(m) as u32)
            + cue_body_bytes(c),
        Marker::Loop(l) => loop_name_bytes() + seq![0u8] + be_u32_bytes(m2_marker_size(m) as u32)
            + loop_body_bytes(l),
        Marker::Flip(f) => flip_name_bytes() + seq![0u8] + be_u32_bytes(m2_marker_size(m) as u32)
            + flip_body_bytes(f),
    }
}

/// The concatenated wire forms of a sequence of sub-markers.
pub open spec fn m2_markers_bytes(s: Seq<Marker>) -> Seq<u8>
    decreases s.len(),
{
    if s.len() == 0 {
        Seq::empty()
    } else {
        m2_marker_bytes(s.first()) + m2_markers_bytes(s.drop_first())
    }
}

/// Concatenation distributes over appending one sub-marker at the end.
pub proof fn lemma_m2_markers_bytes_push(s: Seq<Marker>, m: Marker)
    ensures
        m2_markers_bytes(s.push(m)) == m2_markers_bytes(s) + m2_marker_bytes(m),
    decreases s.len(),
{
    if s.len() == 0 {
        assert(s.push(m).drop_first() =~= Seq::<Marker>::empty());
        assert(s.push(m).first() == m);
        assert(m2_markers_bytes(Seq::<Marker>::empty()) == Seq::<u8>::empty());
        assert(m2_markers_bytes(s.push(m)) =~= m2_markers_bytes(s) + m2_marker_bytes(m));
    } else {
        assert(s.push(m).drop_first() =~= s.drop_first().push(m));
        lemma_m2_markers_bytes_push(s.drop_first(), m);
        assert(m2_markers_bytes(s.push(m)) =~= m2_markers_bytes(s) + m2_marker_bytes(m));
    }
}

/// True when every sub-marker's lengths fit the wire format's fields.
pub open spec fn m2_content_wf(c: Markers2Content) -> bool {
    forall|k: int| 0 <= k < c.markers@.len() ==> m2_marker_wf(#[trigger] c.markers@[k])
}

/// The byte form of the decoded tag content: the content version followed
/// by all sub-markers.
pub open spec fn m2_content_bytes(c: Markers2Content) -> Seq<u8> {
    version_bytes(c.version) + m2_markers_bytes(c.markers@)
}

impl Markers2 {
    /// Returns whether the beatgrid is locked, from the first `BPMLOCK`
    /// sub-marker, if any.
    pub fn bpm_locked(&self) -> (r: Option<bool>)
        ensures
            r == m2_bpm_locked(self.content.markers@),
    {
        proof {
            assert(self.content.markers@.skip(0) =~= self.content.markers@);
        }
        let mut k: usize = 0;
        while k < self.content.markers.len()
            invariant
                k <= self.content.markers@.len(),
                m2_bpm_locked(self.content.markers@) == m2_bpm_locked(
                    self.content.markers@.skip(k as int),
                ),
            decreases self.content.markers@.len() - k,
        {
            proof {
                assert(self.content.markers@.skip(k as int).drop_first()
                    =~= self.content.markers@.skip(k + 1));
                assert(self.content.markers@.skip(k as int).first()
                    == self.content.markers@[k as int]);
            }
            if let Marker::BPMLock(m) = &self.content.markers[k] {
                return Some(m.is_locked);
            }
            k = k + 1;
        }
        None
    }

    /// Returns the track color, from the first `COLOR` sub-marker, if any.
    pub fn track_color(&self) -> (r: Option<Color>)
        ensures
            r == m2_track_color(self.content.markers@),
    {
        proof {
            assert(self.content.markers@.skip(0) =~= self.content.markers@);
        }
        let mut k: usize = 0;
        while k < self.content.markers.len()
            invariant
                k <= self.content.markers@.len(),
                m2_track_color(self.content.markers@) == m2_track_color(
                    self.content.markers@.skip(k as int),
                ),
            decreases self.content.markers@.len() - k,
        {
            proof {
                assert(self.content.markers@.skip(k as int).drop_first()
                    =~= self.content.markers@.skip(k + 1));
                assert(self.content.markers@.skip(k as int).first()
                    == self.content.markers@[k as int]);
            }
            if let Marker::Color(m) = &self.content.markers[k] {
                return Some(m.color);
            }
            k = k + 1;
        }
        None
    }

    /// Returns all cue points, in sub-marker order.
    pub fn cues(&self) -> (r: Vec<Cue>)
        ensures
            r@ == m2_cues(self.content.markers@),
    {
        let mut cues: Vec<Cue> = Vec::new();
        let mut k: usize = 0;
        while k < self.content.markers.len()
            invariant
                k <= self.content.markers@.len(),
                cues@ == m2_cues(self.content.markers@.take(k as int)),
            decreases self.content.markers@.len() - k,
        {
            proof {
                assert(self.content.markers@.take(k + 1).drop_last() =~= self.content.markers@.take(
                    k as int,
                ));
                assert(self.content.markers@.take(k + 1).last() == self.content.markers@[k as int]);
            }
            if let Marker::Cue(c) = &self.content.markers[k] {
                cues.push(clone_cue(c));
            }
            k = k + 1;
        }
        proof {
            assert(self.content.markers@.take(self.content.markers@.len() as int)
                =~= self.content.markers@);
        }
        cues
    }

    /// Returns all saved loops, in sub-marker order.
    pub fn loops(&self) -> (r: Vec<Loop>)
        ensures
            r@ == m2_loops(self.content.markers@),
    {
        let mut loops: Vec<Loop> = Vec::new();
        let mut k: usize = 0;
        while k < self.content.markers.len()
            invariant
                k <= self.content.markers@.len(),
                loops@ == m2_loops(self.content.markers@.take(k as int)),
            decreases self.content.markers@.len() - k,
        {
            proof {
                assert(self.content.markers@.take(k + 1).drop_last() =~= self.content.markers@.take(
                    k as int,
                ));
                assert(self.content.markers@.take(k + 1).last() == self.content.markers@[k as int]);
            }
            if let Marker::Loop(l) = &self.content.markers[k] {
                loops.push(clone_loop(l));
            }
            k = k + 1;
        }
        proof {
            assert(self.content.markers@.take(self.content.markers@.len() as int)
                =~= self.content.markers@);
        }
        loops
    }

    /// Returns all flip performances, in sub-marker order.
    pub fn flips(&self) -> (r: Vec<Flip>)
        ensures
            r@.len() == m2_flips(self.content.markers@).len(),
            forall|t: int|
                0 <= t < r@.len() ==> flip_like(
                    #[trigger] r@[t],
                    m2_flips(self.content.markers@)[t],
                ),
    {
        let mut flips: Vec<Flip> = Vec::new();
        let mut k: usize = 0;
        while k < self.content.markers.len()
            invariant
                k <= self.content.markers@.len(),
                flips@.len() == m2_flips(self.content.markers@.take(k as int)).len(),
                forall|t: int|
                    0 <= t < flips@.len() ==> flip_like(
                        #[trigger] flips@[t],
                        m2_flips(self.content.markers@.take(k as int))[t],
                    ),
            decreases self.content.markers@.len() - k,
        {
            proof {
                assert(self.content.markers@.take(k + 1).drop_last() =~= self.content.markers@.take(
                    k as int,
                ));
                assert(self.content.markers@.take(k + 1).last() == self.content.markers@[k as int]);
            }
            if let Marker::Flip(f) = &self.content.markers[k] {
                flips.push(clone_flip(f));
            }
            k = k + 1;
        }
        proof {
            assert(self.content.markers@.take(self.content.markers@.len() as int)
                =~= self.content.markers@);
        }
        flips
    }
}

/// The beatgrid-lock state carried by the first `BPMLOCK` sub-marker.
pub open spec fn m2_bpm_locked(s: Seq<Marker>) -> Option<bool>
    decreases s.len(),
{
    if s.len() == 0 {
        None
    } else {
        match s.first() {
            Marker::BPMLock(b) => Some(b.is_locked),
            _ => m2_bpm_locked(s.drop_first()),
        }
    }
}

/// The color carried by the first `COLOR` sub-marker.
pub open spec fn m2_track_color(s: Seq<Marker>) -> Option<Color>
    decreases s.len(),
{
    if s.len() == 0 {
        None
    } else {
        match s.first() {
            Marker::Color(c) => Some(c.color),
            _ => m2_track_color(s.drop_first()),
        }
    }
}

/// The cue points among the sub-markers, in order.
pub open spec fn m2_cues(s: Seq<Marker>) -> Seq<Cue>
    decreases s.len(),
{
    if s.len() == 0 {
        Seq::empty()
    } else {
        match s.last() {
            Marker::Cue(c) => m2_cues(s.drop_last()).push(c),
            _ => m2_cues(s.drop_last()),
        }
    }
}

/// The saved loops among the sub-markers, in order.
pub open spec fn m2_loops(s: Seq<Marker>) -> Seq<Loop>
    decreases s.len(),
{
    if s.len() == 0 {
        Seq::empty()
    } else {
        match s.last() {
            Marker::Loop(l) => m2_loops(s.drop_last()).push(l),
            _ => m2_loops(s.drop_last()),
        }
    }
}

/// The flip performances among the sub-markers, in order.
pub open spec fn m2_flips(s: Seq<Marker>) -> Seq<Flip>
    decreases s.len(),
{
    if s.len() == 0 {
        Seq::empty()
    } else {
        match s.last() {
            Marker::Flip(f) => m2_flips(s.drop_last()).push(f),
            _ => m2_flips(s.drop_last()),
        }
    }
}

/// Appends the wire form of an unknown sub-marker.
fn write_unknown_marker(out: &mut Vec<u8>, marker: &UnknownMarker) -> (n: usize)
    requires
        marker.data@.len() <= 0xFFFFFFFF,
    ensures
        final(out)@ == old(out)@ + m2_marker_bytes(Marker::Unknown(*marker)),
{
    let start = out.len();
    out.extend_from_slice(marker.name.as_str().as_bytes());
    out.push(0);
    write_be_u32(out, marker.data.len() as u32);
    out.extend_from_slice(marker.data.as_slice());
    assert(out@ =~= old(out)@ + m2_marker_bytes(Marker::Unknown(*marker)));
    out.len() - start
}

/// Appends the wire form of a `BPMLOCK` sub-marker.
fn write_bpmlock_marker(out: &mut Vec<u8>, marker: &BPMLockMarker) -> (n: usize)
    ensures
        final(out)@ == old(out)@ + m2_marker_bytes(Marker::BPMLock(*marker)),
{
    let start = out.len();
    out.push(0x42);
    out.push(0x50);
    out.push(0x4D);
    out.push(0x4C);
    out.push(0x4F);
    out.push(0x43);
    out.push(0x4B);
    out.push(0);
    write_be_u32(out, 1);
    out.push(if marker.is_locked {
        0x01
    } else {
        0x00
    });
    assert(out@ =~= old(out)@ + m2_marker_bytes(Marker::BPMLock(*marker)));
    out.len() - start
}

/// Appends the wire form of a `COLOR` sub-marker.
fn write_color_marker(out: &mut Vec<u8>, marker: &TrackColorMarker) -> (n: usize)
    ensures
        final(out)@ == old(out)@ + m2_marker_bytes(Marker::Color(*marker)),
{
    let start = out.len();
    out.push(0x43);
    out.push(0x4F);
    out.push(0x4C);
    out.push(0x4F);
    out.push(0x52);
    out.push(0);
    write_be_u32(out, 4);
    out.push(0);
    write_color(out, marker.color);
    assert(out@ =~= old(out)@ + m2_marker_bytes(Marker::Color(*marker)));
    out.len() - start
}

/// Appends the wire form of a `CUE` sub-marker.
fn write_cue_marker(out: &mut Vec<u8>, marker: &Cue) -> (n: usize)
    requires
        13 + encode_utf8(marker.label@).len() <= 0xFFFFFFFF,
    ensures
        final(out)@ == old(out)@ + m2_marker_bytes(Marker::Cue(*marker)),
{
    let start = out.len();
    out.push(0x43);
    out.push(0x55);
    out.push(0x45);
    out.push(0);
    let label_bytes = marker.label.as_str().as_bytes();
    write_be_u32(out, 13 + label_bytes.len() as u32);
    out.push(0);
    out.push(marker.index);
    write_be_u32(out, marker.position.millis);
    out.push(0);
    write_color(out, marker.color);
    out.push(0);
    out.push(0);
    out.extend_from_slice(label_bytes);
    out.push(0);
    assert(out@ =~= old(out)@ + m2_marker_bytes(Marker::Cue(*marker)));
    out.len() - start
}

/// Appends the wire form of a `LOOP` sub-marker.
fn write_loop_marker(out: &mut Vec<u8>, marker: &Loop) -> (n: usize)
    requires
        21 + encode_utf8(marker.label@).len() <= 0xFFFFFFFF,
    ensures
        final(out)@ == old(out)@ + m2_marker_bytes(Marker::Loop(*marker)),
{
    let start = out.len();
    out.push(0x4C);
    out.push(0x4F);
    out.push(0x4F);
    out.push(0x50);
    out.push(0);
    let label_bytes = marker.label.as_str().as_bytes();
    write_be_u32(out, 21 + label_bytes.len() as u32);
    out.push(0);
    out.push(marker.index);
    write_be_u32(out, marker.start_position.millis);
    write_be_u32(out, marker.end_position.millis);
    out.push(0xFF);
    out.push(0xFF);
    out.push(0xFF);
    out.push(0xFF);
    out.push(0);
    write_color(out, marker.color);
    out.push(0);
    out.push(if marker.is_locked {
        0x01
    } else {
        0x00
    });
    out.extend_from_slice(label_bytes);
    out.push(0);
    assert(out@ =~= old(out)@ + m2_marker_bytes(Marker::Loop(*marker)));
    out.len() - start
}

/// Appends the wire form of one flip action.
fn write_flip_marker_action(out: &mut Vec<u8>, action: &FlipAction) -> (n: usize)
    requires
        action matches FlipAction::Unknown(u) ==> u.data@.len() <= 0xFFFFFFFF,
    ensures
        final(out)@ == old(out)@ + m2_action_bytes(*action),
{
    let start = out.len();
    match action {
        FlipAction::Jump(act) => {
            out.push(0x00);
            write_be_u32(out, 16);
            write_be_u64(out, act.source_position_seconds);
            write_be_u64(out, act.target_position_seconds);
            assert(out@ =~= old(out)@ + m2_action_bytes(*action));
        },
        FlipAction::Censor(act) => {
            out.push(0x01);
            write_be_u32(out, 24);
            write_be_u64(out, act.start_position_seconds);
            write_be_u64(out, act.end_position_seconds);
            write_be_u64(out, act.speed_factor);
            assert(out@ =~= old(out)@ + m2_action_bytes(*action));
        },
        FlipAction::Unknown(act) => {
            out.push(act.id);
            write_be_u32(out, act.data.len() as u32);
            out.extend_from_slice(act.data.as_slice());
            assert(out@ =~= old(out)@ + m2_action_bytes(*action));
        },
    }
    out.len() - start
}

/// Computes the length field of a `FLIP` sub-marker.
fn flip_size_of(marker: &Flip) -> (size: u32)
    requires
        m2_marker_wf(Marker::Flip(*marker)),
    ensures
        size == m2_marker_size(Marker::Flip(*marker)),
{
    let label_bytes = marker.label.as_str().as_bytes();
    proof {
        lemma_flip_actions_size_bounds(marker.actions@);
        assert(marker.actions@.take(0) =~= Seq::<FlipAction>::empty());
        assert(flip_actions_size(Seq::<FlipAction>::empty()) == 0);
    }
    let mut size: u32 = 9 + label_bytes.len() as u32;
    let mut k: usize = 0;
    while k < marker.actions.len()
        invariant
            k <= marker.actions@.len(),
            size == 9 + encode_utf8(marker.label@).len() + flip_actions_size(
                marker.actions@.take(k as int),
            ),
            m2_marker_wf(Marker::Flip(*marker)),
        decreases marker.actions@.len() - k,
    {
        proof {
            assert(marker.actions@.take(k + 1).drop_last() =~= marker.actions@.take(k as int));
            assert(marker.actions@.take(k + 1).last() == marker.actions@[k as int]);
            lemma_flip_actions_size_mono(marker.actions@, k + 1);
        }
        size = size + (match &marker.actions[k] {
            FlipAction::Jump(_) => 21u32,
            FlipAction::Censor(_) => 29u32,
            FlipAction::Unknown(act) => act.data.len() as u32 + 1,
        });
        k = k + 1;
    }
    proof {
        assert(marker.actions@.take(marker.actions@.len() as int) =~= marker.actions@);
    }
    size
}

/// Appends the payload body of a `FLIP` sub-marker.
fn write_flip_body(out: &mut Vec<u8>, marker: &Flip) -> (n: usize)
    requires
        m2_marker_wf(Marker::Flip(*marker)),
    ensures
        final(out)@ == old(out)@ + flip_body_bytes(*marker),
{
    let start = out.len();
    out.push(0);
    out.push(marker.index);
    out.push(if marker.is_enabled {
        0x01
    } else {
        0x00
    });
    out.extend_from_slice(marker.label.as_str().as_bytes());
    out.push(0);
    out.push(if marker.is_loop {
        0x01
    } else {
        0x00
    });
    write_be_u32(out, marker.actions.len() as u32);
    let ghost mid = out@;
    let mut k: usize = 0;
    while k < marker.actions.len()
        invariant
            k <= marker.actions@.len(),
            out@ == mid + m2_actions_bytes(marker.actions@.take(k as int)),
            m2_marker_wf(Marker::Flip(*marker)),
        decreases marker.actions@.len() - k,
    {
        proof {
            lemma_m2_actions_bytes_push(
                marker.actions@.take(k as int),
                marker.actions@[k as int],
            );
            assert(marker.actions@.take(k as int).push(marker.actions@[k as int])
                =~= marker.actions@.take(k + 1));
        }
        write_flip_marker_action(out, &marker.actions[k]);
        k = k + 1;
    }
    proof {
        assert(marker.actions@.take(marker.actions@.len() as int) =~= marker.actions@);
        assert(out@ =~= old(out)@ + flip_body_bytes(*marker));
    }
    out.len() - start
}

/// Appends the wire form of a `FLIP` sub-marker.
fn write_flip_marker(out: &mut Vec<u8>, marker: &Flip) -> (n: usize)
    requires
        m2_marker_wf(Marker::Flip(*marker)),
    ensures
        final(out)@ == old(out)@ + m2_marker_bytes(Marker::Flip(*marker)),
{
    let start = out.len();
    out.push(0x46);
    out.push(0x4C);
    out.push(0x49);
    out.push(0x50);
    out.push(0);
    let size = flip_size_of(marker);
    write_be_u32(out, size);
    write_flip_body(out, marker);
    proof {
        assert(out@ =~= old(out)@ + m2_marker_bytes(Marker::Flip(*marker)));
    }
    out.len() - start
}

/// A prefix of the actions never contributes more to the length field than
/// all of them.
proof fn lemma_flip_actions_size_mono(s: Seq<FlipAction>, k: int)
    requires
        0 <= k <= s.len(),
    ensures
        flip_actions_size(s.take(k)) <= flip_actions_size(s),
    decreases s.len() - k,
{
    if k < s.len() {
        lemma_flip_actions_size_mono(s, k + 1);
        assert(s.take(k + 1).drop_last() =~= s.take(k));
        lemma_flip_action_size_nonneg(s.take(k + 1).last());
    } else {
        assert(s.take(k) =~= s);
    }
}

/// An action's size contribution is never negative.
proof fn lemma_flip_action_size_nonneg(a: FlipAction)
    ensures
        flip_action_size(a) >= 0,
{
}

/// Appends the wire form of one sub-marker.
fn write_marker(out: &mut Vec<u8>, marker: &Marker) -> (n: usize)
    requires
        m2_marker_wf(*marker),
    ensures
        final(out)@ == old(out)@ + m2_marker_bytes(*marker),
{
    match marker {
        Marker::Unknown(m) => write_unknown_marker(out, m),
        Marker::BPMLock(m) => write_bpmlock_marker(out, m),
        Marker::Color(m) => write_color_marker(out, m),
        Marker::Cue(m) => write_cue_marker(out, m),
        Marker::Loop(m) => write_loop_marker(out, m),
        Marker::Flip(m) => write_flip_marker(out, m),
    }
}

/// Serializes the decoded content: the content version followed by all
/// sub-markers, appending to `out`.
pub fn write_markers2_content(out: &mut Vec<u8>, content: &Markers2Content) -> (n: usize)
    requires
        m2_content_wf(*content),
    ensures
        final(out)@ == old(out)@ + m2_content_bytes(*content),
        n == m2_content_bytes(*content).len(),
{
    let start = out.len();
    write_version(out, content.version);
    let mut k: usize = 0;
    while k < content.markers.len()
        invariant
            k <= content.markers@.len(),
            out@ == old(out)@ + version_bytes(content.version) + m2_markers_bytes(
                content.markers@.take(k as int),
            ),
            out@.len() >= start == old(out)@.len(),
            m2_content_wf(*content),
        decreases content.markers@.len() - k,
    {
        proof {
            lemma_m2_markers_bytes_push(content.markers@.take(k as int), content.markers@[k as int]);
            assert(content.markers@.take(k as int).push(content.markers@[k as int])
                =~= content.markers@.take(k + 1));
        }
        write_marker(out, &content.markers[k]);
        k = k + 1;
    }
    proof {
        assert(content.markers@.take(content.markers@.len() as int) =~= content.markers@);
        assert(out@ =~= old(out)@ + m2_content_bytes(*content));
    }
    out.len() - start
}

/// True when the canonical byte form `canon` matches the raw bytes `raw`
/// except that a canonical `0x01` boolean byte may stand where the raw data
/// held any other non-zero byte (the readers accept any non-zero byte as
/// `true`).
pub open spec fn bytes_match_lenient(canon: Seq<u8>, raw: Seq<u8>) -> bool {
    canon.len() == raw.len() && forall|k: int|
        0 <= k < canon.len() ==> #[trigger] canon[k] == raw[k] || (canon[k] == 0x01 && raw[k]
            != 0x00)
}

/// Lenient matching is compatible with concatenation.
pub proof fn lemma_lenient_concat(c1: Seq<u8>, r1: Seq<u8>, c2: Seq<u8>, r2: Seq<u8>)
    requires
        bytes_match_lenient(c1, r1),
        bytes_match_lenient(c2, r2),
    ensures
        bytes_match_lenient(c1 + c2, r1 + r2),
{
    assert forall|k: int| 0 <= k < (c1 + c2).len() implies #[trigger] (c1 + c2)[k] == (r1 + r2)[k]
        || ((c1 + c2)[k] == 0x01 && (r1 + r2)[k] != 0x00) by {
        if k < c1.len() {
            assert(c1[k] == r1[k] || (c1[k] == 0x01 && r1[k] != 0x00));
        } else {
            assert(c2[k - c1.len()] == r2[k - c1.len()] || (c2[k - c1.len()] == 0x01 && r2[k
                - c1.len()] != 0x00));
        }
    }
}

/// True when a sub-marker's wire length field can be reproduced from its
/// parsed value: the writer's length field for a `FLIP` sub-marker counts
/// an unknown action short, so only flips without unknown actions are
/// size-consistent.
pub open spec fn flip_size_consistent(m: Marker) -> bool {
    match m {
        Marker::Flip(f) => forall|k: int|
            0 <= k < f.actions@.len() ==> !(#[trigger] f.actions@[k] is Unknown),
        _ => true,
    }
}

/// True when `s[p]` is the first NUL byte at or behind `i`.
pub open spec fn first_nul_at(s: Seq<u8>, i: int, p: int) -> bool {
    &&& i <= p < s.len()
    &&& s[p] == 0u8
    &&& nul_free(s, i, p)
}

/// The first NUL behind a position is unique.
proof fn lemma_first_nul_at_unique(s: Seq<u8>, i: int, p1: int, p2: int)
    requires
        first_nul_at(s, i, p1),
        first_nul_at(s, i, p2),
    ensures
        p1 == p2,
{
}

/// True when the bytes are a well-formed `CUE` payload: the fixed NULs, a
/// big-endian position, a color and a NUL-terminated UTF-8 label that ends
/// the payload.
pub open spec fn cue_body_ok(b: Seq<u8>) -> bool {
    &&& b.len() >= 13
    &&& b[0] == 0u8 && b[6] == 0u8 && b[10] == 0u8 && b[11] == 0u8
    &&& b[b.len() - 1] == 0u8
    &&& nul_free(b, 12, b.len() - 1)
    &&& vstd::utf8::valid_utf8(b.subrange(12, b.len() - 1))
}

/// True when the bytes are a well-formed `LOOP` payload.
pub open spec fn loop_body_ok(b: Seq<u8>) -> bool {
    &&& b.len() >= 21
    &&& b[0] == 0u8
    &&& b[10] == 0xFFu8 && b[11] == 0xFFu8 && b[12] == 0xFFu8 && b[13] == 0xFFu8
    &&& b[14] == 0u8 && b[18] == 0u8
    &&& b[b.len() - 1] == 0u8
    &&& nul_free(b, 20, b.len() - 1)
    &&& vstd::utf8::valid_utf8(b.subrange(20, b.len() - 1))
}

/// True when a flip action can be read at `s[i]`: its length field fits
/// the input and matches the fixed sizes of the known action ids.
pub open spec fn action_ok(s: Seq<u8>, i: int) -> bool {
    &&& 0 <= i && i + 5 <= s.len()
    &&& i + 5 + be_u32_at(s, i + 1) <= s.len()
    &&& (s[i] == 0x00u8 ==> be_u32_at(s, i + 1) == 16)
    &&& (s[i] == 0x01u8 ==> be_u32_at(s, i + 1) == 24)
}

/// The position behind `n` flip actions read back-to-back from `s[i]`, or
/// `None` when one of them cannot be read.
pub open spec fn spec_actions_end(s: Seq<u8>, i: int, n: nat) -> Option<int>
    decreases n,
{
    if n == 0 {
        Some(i)
    } else if action_ok(s, i) {
        spec_actions_end(s, i + 5 + be_u32_at(s, i + 1), (n - 1) as nat)
    } else {
        None
    }
}

/// True when the bytes are a well-formed `FLIP` payload: a NUL, an index
/// and enabled byte, a NUL-terminated UTF-8 label, a loop byte, and an
/// action list whose count field consumes the payload exactly.
pub open spec fn flip_body_ok(b: Seq<u8>) -> bool {
    &&& b.len() >= 3
    &&& b[0] == 0u8
    &&& exists|q: int|
        {
            &&& #[trigger] first_nul_at(b, 3, q)
            &&& vstd::utf8::valid_utf8(b.subrange(3, q))
            &&& q + 6 <= b.len()
            &&& spec_actions_end(b, q + 6, be_u32_at(b, q + 2) as nat) == Some(b.len() as int)
        }
}

/// True when a whole sub-marker can be read at `s[i]`: a non-empty
/// NUL-terminated UTF-8 name, a length field that fits the input, and a
/// payload that its name's parser accepts (any payload for an unknown
/// name).
pub open spec fn m2_marker_starts_at(s: Seq<u8>, i: int) -> bool {
    &&& 0 <= i < s.len()
    &&& s[i] != 0u8
    &&& exists|p: int|
        {
            &&& #[trigger] first_nul_at(s, i, p)
            &&& vstd::utf8::valid_utf8(s.subrange(i, p))
            &&& p + 5 <= s.len()
            &&& p + 5 + be_u32_at(s, p + 1) <= s.len()
            &&& ({
                let name = s.subrange(i, p);
                let body = s.subrange(p + 1 + 4, p + 5 + be_u32_at(s, p + 1));
                if name == bpmlock_name_bytes() {
                    body.len() == 1
                } else if name == color_name_bytes() {
                    body.len() == 4 && body[0] == 0u8
                } else if name == cue_name_bytes() {
                    cue_body_ok(body)
                } else if name == loop_name_bytes() {
                    loop_body_ok(body)
                } else if name == flip_name_bytes() {
                    flip_body_ok(body)
                } else {
                    true
                }
            })
        }
}

/// Parses a boolean from the byte at `i`: any non-zero byte is `true`.
fn take_bool(input: &[u8], i: usize) -> (r: Result<(bool, usize), Error>)
    requires
        i <= input@.len(),
    ensures
        match r {
            Ok((b, j)) => {
                &&& j == i + 1 <= input@.len()
                &&& b == (input@[i as int] != 0x00)
            },
            Err(e) => e == Error::ParseError && i == input@.len(),
        },
{
    if i == input.len() {
        return Err(Error::ParseError);
    }
    Ok((input[i] != 0x00, i + 1))
}

/// The payload of a `BPMLOCK` sub-marker: one boolean byte.
fn take_bpmlock_marker(data: &[u8]) -> (r: Result<BPMLockMarker, Error>)
    ensures
        match r {
            Ok(m) => {
                &&& data@.len() == 1
                &&& m.is_locked == (data@[0] != 0x00)
                &&& bytes_match_lenient(seq![m2_bool_byte(m.is_locked)], data@)
            },
            Err(e) => e == Error::ParseError && data@.len() != 1,
        },
{
    if data.len() != 1 {
        return Err(Error::ParseError);
    }
    let m = BPMLockMarker { is_locked: data[0] != 0x00 };
    assert(bytes_match_lenient(seq![m2_bool_byte(m.is_locked)], data@));
    Ok(m)
}

/// The payload of a `COLOR` sub-marker: a NUL and three color bytes.
fn take_color_marker(data: &[u8]) -> (r: Result<TrackColorMarker, Error>)
    ensures
        match r {
            Ok(m) => {
                &&& data@.len() == 4 && data@[0] == 0x00
                &&& data@ == seq![0u8] + color_bytes(m.color)
            },
            Err(e) => e == Error::ParseError && !(data@.len() == 4 && data@[0] == 0x00),
        },
{
    if data.len() != 4 || data[0] != 0x00 {
        return Err(Error::ParseError);
    }
    let m = TrackColorMarker {
        color: Color { red: data[1], green: data[2], blue: data[3] },
    };
    assert(data@ =~= seq![0u8] + color_bytes(m.color));
    Ok(m)
}

/// The payload of a `CUE` sub-marker.
fn take_cue_marker(data: &[u8]) -> (r: Result<Cue, Error>)
    ensures
        match r {
            Ok(c) => {
                &&& data@ == cue_body_bytes(c)
                &&& 13 + encode_utf8(c.label@).len() == data@.len()
            },
            Err(e) => e == Error::ParseError && !cue_body_ok(data@),
        },
{
    if data.len() < 13 || data[0] != 0x00 || data[6] != 0x00 || data[10] != 0x00 || data[11] != 0x00
    {
        return Err(Error::ParseError);
    }
    let index = data[1];
    let (millis, _) = match take_be_u32(data, 2) {
        Ok(v) => v,
        Err(_) => {
            proof {
                assert(false);
            }
            return Err(Error::ParseError);
        },
    };
    let color = Color { red: data[7], green: data[8], blue: data[9] };
    let (label, j) = match take_utf8(data, 12) {
        Ok(v) => v,
        Err(e) => {
            proof {
                if cue_body_ok(data@) {
                    if !nul_free(data@, 12, data@.len() as int) {
                        let jj = choose|jj: int|
                            {
                                &&& 12 <= jj < data@.len()
                                &&& data@[jj] == 0u8
                                &&& nul_free(data@, 12, jj)
                                &&& !vstd::utf8::valid_utf8(data@.subrange(12, jj))
                            };
                        lemma_first_nul_at_unique(data@, 12, jj, data@.len() - 1);
                    }
                    assert(false);
                }
            }
            return Err(Error::ParseError);
        },
    };
    if j != data.len() {
        proof {
            if cue_body_ok(data@) {
                lemma_first_nul_at_unique(data@, 12, j - 1, data@.len() - 1);
                assert(false);
            }
        }
        return Err(Error::ParseError);
    }
    let c = Cue { index, position: Position { millis }, color, label };
    proof {
        vstd::utf8::decode_utf8_encode_utf8(data@.subrange(12, j - 1));
        assert(data@ =~= cue_body_bytes(c));
    }
    Ok(c)
}

/// The payload of a `LOOP` sub-marker.
fn take_loop_marker(data: &[u8]) -> (r: Result<Loop, Error>)
    ensures
        match r {
            Ok(l) => {
                &&& bytes_match_lenient(loop_body_bytes(l), data@)
                &&& 21 + encode_utf8(l.label@).len() == data@.len()
            },
            Err(e) => e == Error::ParseError && !loop_body_ok(data@),
        },
{
    if data.len() < 21 || data[0] != 0x00 || data[10] != 0xFF || data[11] != 0xFF || data[12] != 0xFF
        || data[13] != 0xFF || data[14] != 0x00 || data[18] != 0x00 {
        return Err(Error::ParseError);
    }
    let index = data[1];
    let (start_millis, _) = match take_be_u32(data, 2) {
        Ok(v) => v,
        Err(_) => {
            proof {
                assert(false);
            }
            return Err(Error::ParseError);
        },
    };
    let (end_millis, _) = match take_be_u32(data, 6) {
        Ok(v) => v,
        Err(_) => {
            proof {
                assert(false);
            }
            return Err(Error::ParseError);
        },
    };
    let color = Color { red: data[15], green: data[16], blue: data[17] };
    let is_locked = data[19] != 0x00;
    let (label, j) = match take_utf8(data, 20) {
        Ok(v) => v,
        Err(e) => {
            proof {
                if loop_body_ok(data@) {
                    if !nul_free(data@, 20, data@.len() as int) {
                        let jj = choose|jj: int|
                            {
                                &&& 20 <= jj < data@.len()
                                &&& data@[jj] == 0u8
                                &&& nul_free(data@, 20, jj)
                                &&& !vstd::utf8::valid_utf8(data@.subrange(20, jj))
                            };
                        lemma_first_nul_at_unique(data@, 20, jj, data@.len() - 1);
                    }
                    assert(false);
                }
            }
            return Err(Error::ParseError);
        },
    };
    if j != data.len() {
        proof {
            if loop_body_ok(data@) {
                lemma_first_nul_at_unique(data@, 20, j - 1, data@.len() - 1);
                assert(false);
            }
        }
        return Err(Error::ParseError);
    }
    let l = Loop {
        index,
        start_position: Position { millis: start_millis },
        end_position: Position { millis: end_millis },
        color,
        is_locked,
        label,
    };
    proof {
        vstd::utf8::decode_utf8_encode_utf8(data@.subrange(20, j - 1));
        assert(loop_body_bytes(l).len() == data@.len());
        assert forall|k: int| 0 <= k < loop_body_bytes(l).len() implies #[trigger] loop_body_bytes(
            l,
        )[k] == data@[k] || (loop_body_bytes(l)[k] == 0x01 && data@[k] != 0x00) by {
            if k != 19 {
                assert(loop_body_bytes(l)[k] == data@[k]);
            }
        }
    }
    Ok(l)
}

/// Parses one flip action at `i`: an id byte, a length field and the
/// payload.
fn take_flip_marker_action(input: &[u8], i: usize) -> (r: Result<(FlipAction, usize), Error>)
    requires
        i <= input@.len(),
    ensures
        match r {
            Ok((a, j)) => {
                &&& i < j <= input@.len()
                &&& j == i + 5 + be_u32_at(input@, i + 1)
                &&& action_ok(input@, i as int)
                &&& m2_action_bytes(a) == input@.subrange(i as int, j as int)
                &&& (a matches FlipAction::Unknown(u) ==> u.data@.len() <= 0xFFFFFFFF)
            },
            Err(e) => e == Error::ParseError && !action_ok(input@, i as int),
        },
{
    if i == input.len() {
        return Err(Error::ParseError);
    }
    let id = input[i];
    let (len, j1) = match take_be_u32(input, i + 1) {
        Ok(v) => v,
        Err(e) => {
            return Err(Error::ParseError);
        },
    };
    let remaining = input.len() - j1;
    if (remaining as u64) < (len as u64) {
        return Err(Error::ParseError);
    }
    let j2 = j1 + (len as usize);
    if id == 0 {
        if len != 16 {
            return Err(Error::ParseError);
        }
        let (source, p1) = match take_be_u64(input, j1) {
            Ok(v) => v,
            Err(_) => {
                proof {
                    assert(false);
                }
                return Err(Error::ParseError);
            },
        };
        let (target, _p2) = match take_be_u64(input, p1) {
            Ok(v) => v,
            Err(_) => {
                proof {
                    assert(false);
                }
                return Err(Error::ParseError);
            },
        };
        let a = FlipAction::Jump(
            JumpFlipAction { source_position_seconds: source, target_position_seconds: target },
        );
        proof {
            assert(m2_action_bytes(a) =~= input@.subrange(i as int, j2 as int));
        }
        Ok((a, j2))
    } else if id == 1 {
        if len != 24 {
            return Err(Error::ParseError);
        }
        let (start, p1) = match take_be_u64(input, j1) {
            Ok(v) => v,
            Err(_) => {
                proof {
                    assert(false);
                }
                return Err(Error::ParseError);
            },
        };
        let (end, p2) = match take_be_u64(input, p1) {
            Ok(v) => v,
            Err(_) => {
                proof {
                    assert(false);
                }
                return Err(Error::ParseError);
            },
        };
        let (speed, _p3) = match take_be_u64(input, p2) {
            Ok(v) => v,
            Err(_) => {
                proof {
                    assert(false);
                }
                return Err(Error::ParseError);
            },
        };
        let a = FlipAction::Censor(
            CensorFlipAction {
                start_position_seconds: start,
                end_position_seconds: end,
                speed_factor: speed,
            },
        );
        proof {
            assert(m2_action_bytes(a) =~= input@.subrange(i as int, j2 as int));
        }
        Ok((a, j2))
    } else {
        let payload = vstd::slice::slice_to_vec(vstd::slice::slice_subrange(input, j1, j2));
        let a = FlipAction::Unknown(UnknownFlipAction { id, data: payload });
        proof {
            assert(m2_action_bytes(a) =~= input@.subrange(i as int, j2 as int));
        }
        Ok((a, j2))
    }
}

/// In a well-formed `FLIP` payload, the label's terminating NUL determines
/// where the action list starts and that it consumes the payload exactly.
proof fn lemma_flip_body_end(b: Seq<u8>, j: int)
    requires
        flip_body_ok(b),
        4 <= j <= b.len(),
        b[j - 1] == 0u8,
        nul_free(b, 3, j - 1),
    ensures
        j + 5 <= b.len(),
        spec_actions_end(b, j + 5, be_u32_at(b, j + 1) as nat) == Some(b.len() as int),
{
    let q = choose|q: int|
        {
            &&& #[trigger] first_nul_at(b, 3, q)
            &&& vstd::utf8::valid_utf8(b.subrange(3, q))
            &&& q + 6 <= b.len()
            &&& spec_actions_end(b, q + 6, be_u32_at(b, q + 2) as nat) == Some(b.len() as int)
        };
    lemma_first_nul_at_unique(b, 3, q, j - 1);
}

/// The payload of a `FLIP` sub-marker.
#[verifier::rlimit(50)]
fn take_flip_marker(data: &[u8]) -> (r: Result<Flip, Error>)
    requires
        data@.len() <= 0xFFFFFFFF,
    ensures
        match r {
            Ok(f) => {
                &&& m2_marker_wf(Marker::Flip(f))
                &&& (flip_size_consistent(Marker::Flip(f)) ==> bytes_match_lenient(
                    flip_body_bytes(f),
                    data@,
                ))
            },
            Err(e) => e == Error::ParseError && !flip_body_ok(data@),
        },
{
    if data.len() < 3 || data[0] != 0x00 {
        return Err(Error::ParseError);
    }
    let index = data[1];
    let is_enabled = data[2] != 0x00;
    let (label, j) = match take_utf8(data, 3) {
        Ok(v) => v,
        Err(e) => {
            proof {
                if flip_body_ok(data@) {
                    let q = choose|q: int|
                        {
                            &&& #[trigger] first_nul_at(data@, 3, q)
                            &&& vstd::utf8::valid_utf8(data@.subrange(3, q))
                            &&& q + 6 <= data@.len()
                            &&& spec_actions_end(data@, q + 6, be_u32_at(data@, q + 2) as nat)
                                == Some(data@.len() as int)
                        };
                    if !nul_free(data@, 3, data@.len() as int) {
                        let jj = choose|jj: int|
                            {
                                &&& 3 <= jj < data@.len()
                                &&& data@[jj] == 0u8
                                &&& nul_free(data@, 3, jj)
                                &&& !vstd::utf8::valid_utf8(data@.subrange(3, jj))
                            };
                        lemma_first_nul_at_unique(data@, 3, jj, q);
                    }
                    assert(false);
                }
            }
            return Err(Error::ParseError);
        },
    };
    let (is_loop, j1) = match take_bool(data, j) {
        Ok(v) => v,
        Err(e) => {
            proof {
                if flip_body_ok(data@) {
                    lemma_flip_body_end(data@, j as int);
                    assert(false);
                }
            }
            return Err(Error::ParseError);
        },
    };
    let (count, j2) = match take_be_u32(data, j1) {
        Ok(v) => v,
        Err(e) => {
            proof {
                if flip_body_ok(data@) {
                    lemma_flip_body_end(data@, j as int);
                    assert(false);
                }
            }
            return Err(Error::ParseError);
        },
    };
    let ghost s = data@;
    let ghost spec_end = spec_actions_end(s, j2 as int, count as nat);
    let mut actions: Vec<FlipAction> = Vec::new();
    let mut i = j2;
    let mut k: u32 = 0;
    while k < count
        invariant
            k <= count,
            j2 <= i <= s.len(),
            s == data@,
            actions@.len() == k,
            m2_actions_bytes(actions@) == s.subrange(j2 as int, i as int),
            spec_end == spec_actions_end(s, j2 as int, count as nat),
            spec_end == spec_actions_end(s, i as int, (count - k) as nat),
            4 <= j <= s.len(),
            s[j - 1] == 0u8,
            nul_free(s, 3, j - 1),
            j2 == j + 5,
            count == be_u32_at(s, j + 1),
            forall|t: int|
                0 <= t < actions@.len() ==> (#[trigger] actions@[t] matches FlipAction::Unknown(u)
                    ==> u.data@.len() <= 0xFFFFFFFF),
        decreases count - k,
    {
        let (a, j3) = match take_flip_marker_action(data, i) {
            Ok(v) => v,
            Err(e) => {
                proof {
                    assert(spec_actions_end(s, i as int, (count - k) as nat) is None);
                    if flip_body_ok(s) {
                        lemma_flip_body_end(s, j as int);
                        assert(false);
                    }
                }
                return Err(Error::ParseError);
            },
        };
        let ghost prev = actions@;
        actions.push(a);
        proof {
            lemma_m2_actions_bytes_push(prev, a);
            assert(s.subrange(j2 as int, i as int) + s.subrange(i as int, j3 as int)
                =~= s.subrange(j2 as int, j3 as int));
        }
        i = j3;
        k = k + 1;
    }
    if i != data.len() {
        proof {
            assert(spec_actions_end(s, i as int, 0) == Some(i as int));
            if flip_body_ok(s) {
                lemma_flip_body_end(s, j as int);
                assert(false);
            }
        }
        return Err(Error::ParseError);
    }
    let f = Flip { index, is_enabled, label, is_loop, actions };
    proof {
        lemma_flip_actions_size_bounds(f.actions@);
        lemma_actions_bytes_len_vs_size(f.actions@);
        assert(m2_actions_bytes(f.actions@).len() == data@.len() - j2);
        assert(encode_utf8(f.label@).len() == j - 4) by {
            vstd::utf8::decode_utf8_encode_utf8(data@.subrange(3, j - 1));
        }
        assert(m2_marker_size(Marker::Flip(f)) <= data@.len());
        vstd::utf8::decode_utf8_encode_utf8(data@.subrange(3, j - 1));
        if flip_size_consistent(Marker::Flip(f)) {
            lemma_actions_bytes_len_consistent(f.actions@);
            assert(flip_body_bytes(f).len() == data@.len());
            assert forall|t: int| 0 <= t < flip_body_bytes(f).len() implies #[trigger]
            flip_body_bytes(f)[t] == data@[t] || (flip_body_bytes(f)[t] == 0x01 && data@[t] != 0x00)
                by {
                if t != 2 && t != j {
                    assert(flip_body_bytes(f)[t] == data@[t]);
                }
            }
        }
    }
    Ok(f)
}

/// The wire length of a sequence of actions is at least their length-field
/// contribution.
proof fn lemma_actions_bytes_len_vs_size(s: Seq<FlipAction>)
    ensures
        m2_actions_bytes(s).len() >= flip_actions_size(s),
    decreases s.len(),
{
    if s.len() > 0 {
        assert(s.drop_last().push(s.last()) =~= s);
        lemma_m2_actions_bytes_push(s.drop_last(), s.last());
        lemma_actions_bytes_len_vs_size(s.drop_last());
    }
}

/// For actions without unknown payloads, the wire length equals the
/// length-field contribution.
proof fn lemma_actions_bytes_len_consistent(s: Seq<FlipAction>)
    requires
        forall|k: int| 0 <= k < s.len() ==> !(#[trigger] s[k] is Unknown),
    ensures
        m2_actions_bytes(s).len() == flip_actions_size(s),
    decreases s.len(),
{
    if s.len() > 0 {
        assert(s.drop_last().push(s.last()) =~= s);
        lemma_m2_actions_bytes_push(s.drop_last(), s.last());
        assert(forall|k: int| 0 <= k < s.drop_last().len() ==> !(#[trigger] s.drop_last()[k]
            is Unknown));
        lemma_actions_bytes_len_consistent(s.drop_last());
        assert(!(s.last() is Unknown));
    }
}

/// Compares a string's bytes with a byte sequence.
fn str_bytes_eq(a: &str, b: &[u8]) -> (r: bool)
    ensures
        r == (encode_utf8(a@) == b@),
{
    let ab = a.as_bytes();
    if ab.len() != b.len() {
        assert(encode_utf8(a@).len() != b@.len());
        return false;
    }
    let mut k: usize = 0;
    while k < ab.len()
        invariant
            k <= ab@.len() == b@.len(),
            ab@ == encode_utf8(a@),
            forall|t: int| 0 <= t < k ==> ab@[t] == b@[t],
        decreases ab@.len() - k,
    {
        if ab[k] != b[k] {
            return false;
        }
        k = k + 1;
    }
    proof {
        assert(encode_utf8(a@) =~= b@);
    }
    true
}

/// Parses a sub-marker's name at `i`: a non-empty NUL-terminated UTF-8
/// string that does not start with a NUL.
fn take_marker_name(input: &[u8], i: usize) -> (r: Result<(String, usize), Error>)
    requires
        i <= input@.len(),
    ensures
        match r {
            Ok((name, j)) => {
                &&& i + 1 < j <= input@.len()
                &&& input@[j - 1] == 0u8
                &&& crate::util::nul_free(input@, i as int, j - 1)
                &&& encode_utf8(name@) == input@.subrange(i as int, j - 1)
                &&& vstd::utf8::valid_utf8(input@.subrange(i as int, j - 1))
            },
            Err(e) => {
                &&& e == Error::ParseError
                &&& (i == input@.len() || input@[i as int] == 0u8 || nul_free(
                    input@,
                    i as int,
                    input@.len() as int,
                ) || (exists|p: int|
                    #[trigger] first_nul_at(input@, i as int, p) && !vstd::utf8::valid_utf8(
                        input@.subrange(i as int, p),
                    )))
            },
        },
{
    if i == input.len() || input[i] == 0 {
        return Err(Error::ParseError);
    }
    let (name, j) = match take_utf8(input, i) {
        Ok(v) => v,
        Err(_) => {
            proof {
                if !nul_free(input@, i as int, input@.len() as int) {
                    let jj = choose|jj: int|
                        {
                            &&& i <= jj < input@.len()
                            &&& input@[jj] == 0u8
                            &&& nul_free(input@, i as int, jj)
                            &&& !vstd::utf8::valid_utf8(input@.subrange(i as int, jj))
                        };
                    assert(first_nul_at(input@, i as int, jj));
                }
            }
            return Err(Error::ParseError);
        },
    };
    proof {
        vstd::utf8::decode_utf8_encode_utf8(input@.subrange(i as int, j - 1));
    }
    Ok((name, j))
}

/// Pushes the bytes of a marker name for comparisons.
fn known_name(which: u8) -> (r: Vec<u8>)
    requires
        which < 5,
    ensures
        which == 0 ==> r@ == bpmlock_name_bytes(),
        which == 1 ==> r@ == color_name_bytes(),
        which == 2 ==> r@ == cue_name_bytes(),
        which == 3 ==> r@ == loop_name_bytes(),
        which == 4 ==> r@ == flip_name_bytes(),
{
    let mut v: Vec<u8> = Vec::new();
    if which == 0 {
        v.push(0x42);
        v.push(0x50);
        v.push(0x4D);
        v.push(0x4C);
        v.push(0x4F);
        v.push(0x43);
        v.push(0x4B);
        assert(v@ =~= bpmlock_name_bytes());
    } else if which == 1 {
        v.push(0x43);
        v.push(0x4F);
        v.push(0x4C);
        v.push(0x4F);
        v.push(0x52);
        assert(v@ =~= color_name_bytes());
    } else if which == 2 {
        v.push(0x43);
        v.push(0x55);
        v.push(0x45);
        assert(v@ =~= cue_name_bytes());
    } else if which == 3 {
        v.push(0x4C);
        v.push(0x4F);
        v.push(0x4F);
        v.push(0x50);
        assert(v@ =~= loop_name_bytes());
    } else {
        v.push(0x46);
        v.push(0x4C);
        v.push(0x49);
        v.push(0x50);
        assert(v@ =~= flip_name_bytes());
    }
    v
}

/// When a sub-marker can be read at `i`, its name's terminating NUL is the
/// first NUL behind `i`, so the length field and payload sit at forced
/// positions.
proof fn lemma_marker_start_forced(s: Seq<u8>, i: int, j0: int)
    requires
        m2_marker_starts_at(s, i),
        i < j0 <= s.len(),
        s[j0 - 1] == 0u8,
        nul_free(s, i, j0 - 1),
    ensures
        j0 + 4 <= s.len(),
        j0 + 4 + be_u32_at(s, j0) <= s.len(),
        ({
            let name = s.subrange(i, j0 - 1);
            let body = s.subrange(j0 + 4, j0 + 4 + be_u32_at(s, j0));
            if name == bpmlock_name_bytes() {
                body.len() == 1
            } else if name == color_name_bytes() {
                body.len() == 4 && body[0] == 0u8
            } else if name == cue_name_bytes() {
                cue_body_ok(body)
            } else if name == loop_name_bytes() {
                loop_body_ok(body)
            } else if name == flip_name_bytes() {
                flip_body_ok(body)
            } else {
                true
            }
        }),
{
    let p = choose|p: int|
        {
            &&& #[trigger] first_nul_at(s, i, p)
            &&& vstd::utf8::valid_utf8(s.subrange(i, p))
            &&& p + 5 <= s.len()
            &&& p + 5 + be_u32_at(s, p + 1) <= s.len()
            &&& ({
                let name = s.subrange(i, p);
                let body = s.subrange(p + 1 + 4, p + 5 + be_u32_at(s, p + 1));
                if name == bpmlock_name_bytes() {
                    body.len() == 1
                } else if name == color_name_bytes() {
                    body.len() == 4 && body[0] == 0u8
                } else if name == cue_name_bytes() {
                    cue_body_ok(body)
                } else if name == loop_name_bytes() {
                    loop_body_ok(body)
                } else if name == flip_name_bytes() {
                    flip_body_ok(body)
                } else {
                    true
                }
            })
        };
    lemma_first_nul_at_unique(s, i, p, j0 - 1);
}

/// Parses one sub-marker at `i`: its name, length field and payload, with
/// known names dispatched to their own payload parsers and unknown names
/// preserved verbatim.
///
/// On success the parsed sub-marker's canonical byte form matches the
/// consumed bytes, except where a boolean byte was stored non-canonically,
/// and except for the length field of a `FLIP` sub-marker that carries
/// unknown actions.  On failure no sub-marker can be read at `i`.
pub fn take_marker(input: &[u8], i: usize) -> (r: Result<(Marker, usize), Error>)
    requires
        i <= input@.len(),
    ensures
        match r {
            Ok((m, j)) => {
                &&& i < j <= input@.len()
                &&& m2_marker_wf(m)
                &&& (flip_size_consistent(m) ==> bytes_match_lenient(
                    m2_marker_bytes(m),
                    input@.subrange(i as int, j as int),
                ))
            },
            Err(e) => e == Error::ParseError && !m2_marker_starts_at(input@, i as int),
        },
{
    let ghost s = input@;
    let (name, j0) = match take_marker_name(input, i) {
        Ok(v) => v,
        Err(e) => {
            proof {
                if m2_marker_starts_at(s, i as int) {
                    let p = choose|p: int|
                        {
                            &&& #[trigger] first_nul_at(s, i as int, p)
                            &&& vstd::utf8::valid_utf8(s.subrange(i as int, p))
                            &&& p + 5 <= s.len()
                            &&& p + 5 + be_u32_at(s, p + 1) <= s.len()
                        };
                    if exists|p2: int|
                        #[trigger] first_nul_at(s, i as int, p2) && !vstd::utf8::valid_utf8(
                            s.subrange(i as int, p2),
                        ) {
                        let p2 = choose|p2: int|
                            #[trigger] first_nul_at(s, i as int, p2) && !vstd::utf8::valid_utf8(
                                s.subrange(i as int, p2),
                            );
                        lemma_first_nul_at_unique(s, i as int, p2, p);
                    }
                    assert(false);
                }
            }
            return Err(e);
        },
    };
    let (len, j1) = match take_be_u32(input, j0) {
        Ok(v) => v,
        Err(_) => {
            proof {
                if m2_marker_starts_at(s, i as int) {
                    lemma_marker_start_forced(s, i as int, j0 as int);
                    assert(false);
                }
            }
            return Err(Error::ParseError);
        },
    };
    let remaining = input.len() - j1;
    if (remaining as u64) < (len as u64) {
        proof {
            if m2_marker_starts_at(s, i as int) {
                lemma_marker_start_forced(s, i as int, j0 as int);
                assert(false);
            }
        }
        return Err(Error::ParseError);
    }
    let j2 = j1 + (len as usize);
    let data = vstd::slice::slice_subrange(input, j1, j2);
    proof {
        assert(input@.subrange(i as int, j2 as int) =~= input@.subrange(i as int, j0 - 1) + seq![
            0u8,
        ] + input@.subrange(j0 as int, j1 as int) + data@);
    }
    let m: Marker = if str_bytes_eq(name.as_str(), known_name(0).as_slice()) {
        match take_bpmlock_marker(data) {
            Ok(b) => Marker::BPMLock(b),
            Err(e) => {
                proof {
                    if m2_marker_starts_at(s, i as int) {
                        lemma_marker_start_forced(s, i as int, j0 as int);
                        assert(false);
                    }
                }
                return Err(e);
            },
        }
    } else if str_bytes_eq(name.as_str(), known_name(1).as_slice()) {
        match take_color_marker(data) {
            Ok(c) => Marker::Color(c),
            Err(e) => {
                proof {
                    if m2_marker_starts_at(s, i as int) {
                        lemma_marker_start_forced(s, i as int, j0 as int);
                        assert(false);
                    }
                }
                return Err(e);
            },
        }
    } else if str_bytes_eq(name.as_str(), known_name(2).as_slice()) {
        match take_cue_marker(data) {
            Ok(c) => Marker::Cue(c),
            Err(e) => {
                proof {
                    if m2_marker_starts_at(s, i as int) {
                        lemma_marker_start_forced(s, i as int, j0 as int);
                        assert(false);
                    }
                }
                return Err(e);
            },
        }
    } else if str_bytes_eq(name.as_str(), known_name(3).as_slice()) {
        match take_loop_marker(data) {
            Ok(l) => Marker::Loop(l),
            Err(e) => {
                proof {
                    if m2_marker_starts_at(s, i as int) {
                        lemma_marker_start_forced(s, i as int, j0 as int);
                        assert(false);
                    }
                }
                return Err(e);
            },
        }
    } else if str_bytes_eq(name.as_str(), known_name(4).as_slice()) {
        match take_flip_marker(data) {
            Ok(f) => {
                proof {
                    if flip_size_consistent(Marker::Flip(f)) {
                        lemma_actions_bytes_len_consistent(f.actions@);
                        assert(flip_body_bytes(f).len() == data@.len());
                        assert(len == m2_marker_size(Marker::Flip(f)));
                    }
                }
                Marker::Flip(f)
            },
            Err(e) => {
                proof {
                    if m2_marker_starts_at(s, i as int) {
                        lemma_marker_start_forced(s, i as int, j0 as int);
                        assert(false);
                    }
                }
                return Err(e);
            },
        }
    } else {
        Marker::Unknown(UnknownMarker { name, data: vstd::slice::slice_to_vec(data) })
    };
    proof {
        lemma_marker_head_and_body(input@, i as int, j0 as int, j1 as int, j2 as int, m, len);
    }
    Ok((m, j2))
}

/// On success of the per-name payload parsers, the whole sub-marker's
/// canonical byte form leniently matches the consumed bytes.
proof fn lemma_marker_head_and_body(
    s: Seq<u8>,
    i: int,
    j0: int,
    j1: int,
    j2: int,
    m: Marker,
    len: u32,
)
    requires
        0 <= i < j0 <= j1 <= j2 <= s.len(),
        s[j0 - 1] == 0u8,
        j1 == j0 + 4,
        j2 == j1 + len,
        s.subrange(j0, j1) == be_u32_bytes(len),
        match m {
            Marker::Unknown(u) => encode_utf8(u.name@) == s.subrange(i, j0 - 1) && u.data@
                == s.subrange(j1, j2),
            Marker::BPMLock(b) => bpmlock_name_bytes() == s.subrange(i, j0 - 1)
                && bytes_match_lenient(seq![m2_bool_byte(b.is_locked)], s.subrange(j1, j2)) && len
                == 1,
            Marker::Color(c) => color_name_bytes() == s.subrange(i, j0 - 1) && s.subrange(j1, j2)
                == seq![0u8] + color_bytes(c.color) && len == 4,
            Marker::Cue(c) => cue_name_bytes() == s.subrange(i, j0 - 1) && s.subrange(j1, j2)
                == cue_body_bytes(c) && len == 13 + encode_utf8(c.label@).len(),
            Marker::Loop(l) => loop_name_bytes() == s.subrange(i, j0 - 1) && bytes_match_lenient(
                loop_body_bytes(l),
                s.subrange(j1, j2),
            ) && len == 21 + encode_utf8(l.label@).len(),
            Marker::Flip(f) => flip_name_bytes() == s.subrange(i, j0 - 1) && m2_marker_wf(
                Marker::Flip(f),
            ) && (flip_size_consistent(Marker::Flip(f)) ==> bytes_match_lenient(
                flip_body_bytes(f),
                s.subrange(j1, j2),
            ) && len == m2_marker_size(Marker::Flip(f))),
        },
    ensures
        m2_marker_wf(m),
        flip_size_consistent(m) ==> bytes_match_lenient(m2_marker_bytes(m), s.subrange(i, j2)),
{
    assert(s.subrange(i, j2) =~= s.subrange(i, j0 - 1) + seq![0u8] + s.subrange(j0, j1)
        + s.subrange(j1, j2));
    let name_part = s.subrange(i, j0 - 1);
    let body = s.subrange(j1, j2);
    assert(bytes_match_lenient(name_part, name_part));
    assert(bytes_match_lenient(seq![0u8], seq![0u8]));
    assert(bytes_match_lenient(be_u32_bytes(len), s.subrange(j0, j1)));
    match m {
        Marker::Unknown(u) => {
            assert(bytes_match_lenient(u.data@, body));
            lemma_lenient_concat(encode_utf8(u.name@), name_part, seq![0u8], seq![0u8]);
            lemma_lenient_concat(
                encode_utf8(u.name@) + seq![0u8],
                name_part + seq![0u8],
                be_u32_bytes(len),
                s.subrange(j0, j1),
            );
            lemma_lenient_concat(
                encode_utf8(u.name@) + seq![0u8] + be_u32_bytes(len),
                name_part + seq![0u8] + s.subrange(j0, j1),
                u.data@,
                body,
            );
            assert(m2_marker_bytes(m) =~= encode_utf8(u.name@) + seq![0u8] + be_u32_bytes(len)
                + u.data@);
        },
        Marker::BPMLock(b) => {
            lemma_lenient_concat(bpmlock_name_bytes(), name_part, seq![0u8], seq![0u8]);
            lemma_lenient_concat(
                bpmlock_name_bytes() + seq![0u8],
                name_part + seq![0u8],
                be_u32_bytes(len),
                s.subrange(j0, j1),
            );
            lemma_lenient_concat(
                bpmlock_name_bytes() + seq![0u8] + be_u32_bytes(len),
                name_part + seq![0u8] + s.subrange(j0, j1),
                seq![m2_bool_byte(b.is_locked)],
                body,
            );
            assert(m2_marker_bytes(m) =~= bpmlock_name_bytes() + seq![0u8] + be_u32_bytes(len)
                + seq![m2_bool_byte(b.is_locked)]);
        },
        Marker::Color(c) => {
            lemma_lenient_concat(color_name_bytes(), name_part, seq![0u8], seq![0u8]);
            lemma_lenient_concat(
                color_name_bytes() + seq![0u8],
                name_part + seq![0u8],
                be_u32_bytes(len),
                s.subrange(j0, j1),
            );
            assert(bytes_match_lenient(seq![0u8] + color_bytes(c.color), body));
            lemma_lenient_concat(
                color_name_bytes() + seq![0u8] + be_u32_bytes(len),
                name_part + seq![0u8] + s.subrange(j0, j1),
                seq![0u8] + color_bytes(c.color),
                body,
            );
            assert(m2_marker_bytes(m) =~= color_name_bytes() + seq![0u8] + be_u32_bytes(len) + (
            seq![0u8] + color_bytes(c.color)));
        },
        Marker::Cue(c) => {
            lemma_lenient_concat(cue_name_bytes(), name_part, seq![0u8], seq![0u8]);
            lemma_lenient_concat(
                cue_name_bytes() + seq![0u8],
                name_part + seq![0u8],
                be_u32_bytes(len),
                s.subrange(j0, j1),
            );
            assert(bytes_match_lenient(cue_body_bytes(c), body));
            lemma_lenient_concat(
                cue_name_bytes() + seq![0u8] + be_u32_bytes(len),
                name_part + seq![0u8] + s.subrange(j0, j1),
                cue_body_bytes(c),
                body,
            );
            assert(m2_marker_bytes(m) =~= cue_name_bytes() + seq![0u8] + be_u32_bytes(len)
                + cue_body_bytes(c));
        },
        Marker::Loop(l) => {
            lemma_lenient_concat(loop_name_bytes(), name_part, seq![0u8], seq![0u8]);
            lemma_lenient_concat(
                loop_name_bytes() + seq![0u8],
                name_part + seq![0u8],
                be_u32_bytes(len),
                s.subrange(j0, j1),
            );
            lemma_lenient_concat(
                loop_name_bytes() + seq![0u8] + be_u32_bytes(len),
                name_part + seq![0u8] + s.subrange(j0, j1),
                loop_body_bytes(l),
                body,
            );
            assert(m2_marker_bytes(m) =~= loop_name_bytes() + seq![0u8] + be_u32_bytes(len)
                + loop_body_bytes(l));
        },
        Marker::Flip(f) => {
            if flip_size_consistent(m) {
                lemma_lenient_concat(flip_name_bytes(), name_part, seq![0u8], seq![0u8]);
                lemma_lenient_concat(
                    flip_name_bytes() + seq![0u8],
                    name_part + seq![0u8],
                    be_u32_bytes(len),
                    s.subrange(j0, j1),
                );
                lemma_lenient_concat(
                    flip_name_bytes() + seq![0u8] + be_u32_bytes(len),
                    name_part + seq![0u8] + s.subrange(j0, j1),
                    flip_body_bytes(f),
                    body,
                );
                assert(m2_marker_bytes(m) =~= flip_name_bytes() + seq![0u8] + be_u32_bytes(len)
                    + flip_body_bytes(f));
            }
        },
    }
}

/// True when every sub-marker in the sequence has a reproducible length
/// field.
pub open spec fn all_size_consistent(s: Seq<Marker>) -> bool {
    forall|k: int| 0 <= k < s.len() ==> flip_size_consistent(#[trigger] s[k])
}

/// Parses the decoded content of a `Serato Markers2` tag: the content
/// version followed by sub-markers up to the first position where no
/// further sub-marker can be read.  Trailing bytes there are ignored, as
/// the format tolerates unparseable tails; the returned position is
/// maximal in that no well-formed sub-marker starts at it.
#[verifier::rlimit(100)]
pub fn parse_markers2_content(input: &[u8]) -> (r: Result<(Markers2Content, usize), Error>)
    ensures
        match r {
            Ok((c, j)) => {
                &&& 2 <= j <= input@.len()
                &&& version_bytes(c.version) == input@.subrange(0, 2)
                &&& m2_content_wf(c)
                &&& !m2_marker_starts_at(input@, j as int)
                &&& (all_size_consistent(c.markers@) ==> bytes_match_lenient(
                    m2_content_bytes(c),
                    input@.subrange(0, j as int),
                ))
            },
            Err(e) => e == Error::ParseError && input@.len() < 2,
        },
{
    let (version, start) = match take_version(input, 0) {
        Ok(v) => v,
        Err(e) => {
            return Err(e);
        },
    };
    let mut markers: Vec<Marker> = Vec::new();
    proof {
        assert(m2_markers_bytes(Seq::<Marker>::empty()) == Seq::<u8>::empty());
        assert(version_bytes(version) + Seq::<u8>::empty() =~= version_bytes(version));
    }
    let mut i = start;
    loop
        invariant
            2 <= i <= input@.len(),
            forall|k: int| 0 <= k < markers@.len() ==> m2_marker_wf(#[trigger] markers@[k]),
            all_size_consistent(markers@) ==> bytes_match_lenient(
                version_bytes(version) + m2_markers_bytes(markers@),
                input@.subrange(0, i as int),
            ),
            version_bytes(version) == input@.subrange(0, 2),
        ensures
            2 <= i <= input@.len(),
            forall|k: int| 0 <= k < markers@.len() ==> m2_marker_wf(#[trigger] markers@[k]),
            !m2_marker_starts_at(input@, i as int),
            all_size_consistent(markers@) ==> bytes_match_lenient(
                version_bytes(version) + m2_markers_bytes(markers@),
                input@.subrange(0, i as int),
            ),
            version_bytes(version) == input@.subrange(0, 2),
        decreases input@.len() - i,
    {
        let (m, j) = match take_marker(input, i) {
            Ok(v) => v,
            Err(_) => {
                break ;
            },
        };
        let ghost prev = markers@;
        markers.push(m);
        proof {
            lemma_content_step(input@, version, prev, m, i as int, j as int);
            assert(markers@ == prev.push(m));
            assert forall|k: int| 0 <= k < markers@.len() implies m2_marker_wf(
                #[trigger] markers@[k],
            ) by {
                if k < prev.len() {
                    assert(markers@[k] == prev[k]);
                } else {
                    assert(markers@[k] == m);
                }
            }
        }
        i = j;
    }
    let c = Markers2Content { version, markers };
    proof {
        assert(m2_content_wf(c));
    }
    Ok((c, i))
}

/// Extending the parsed sub-markers by one whose wire form matches the next
/// consumed bytes keeps the whole content leniently matching the consumed
/// prefix.
proof fn lemma_content_step(s: Seq<u8>, version: Version, prev: Seq<Marker>, m: Marker, i: int, j: int)
    requires
        0 <= i <= j <= s.len(),
        all_size_consistent(prev) ==> bytes_match_lenient(
            version_bytes(version) + m2_markers_bytes(prev),
            s.subrange(0, i),
        ),
        flip_size_consistent(m) ==> bytes_match_lenient(m2_marker_bytes(m), s.subrange(i, j)),
    ensures
        all_size_consistent(prev.push(m)) ==> bytes_match_lenient(
            version_bytes(version) + m2_markers_bytes(prev.push(m)),
            s.subrange(0, j),
        ),
{
    if all_size_consistent(prev.push(m)) {
        assert forall|k: int| 0 <= k < prev.len() implies flip_size_consistent(
            #[trigger] prev[k],
        ) by {
            assert(prev[k] == prev.push(m)[k]);
        }
        assert(flip_size_consistent(prev.push(m)[prev.len() as int]));
        lemma_m2_markers_bytes_push(prev, m);
        lemma_lenient_concat(
            version_bytes(version) + m2_markers_bytes(prev),
            s.subrange(0, i),
            m2_marker_bytes(m),
            s.subrange(i, j),
        );
        assert(s.subrange(0, i) + s.subrange(i, j) =~= s.subrange(0, j));
        assert(version_bytes(version) + m2_markers_bytes(prev.push(m)) =~= version_bytes(version)
            + m2_markers_bytes(prev) + m2_marker_bytes(m));
    }
}

/// The end of the run of base64 alphabet characters that starts at `i`.
pub open spec fn b64_run_end(s: Seq<u8>, i: int) -> int
    decreases s.len() - i when 0 <= i <= s.len()
{
    if i < s.len() && crate::tag::format::is_b64_alphabet(s[i]) {
        b64_run_end(s, i + 1)
    } else {
        i
    }
}

/// The run end lies between `i` and the end of the input.
pub proof fn lemma_b64_run_end_bounds(s: Seq<u8>, i: int)
    requires
        0 <= i <= s.len(),
    ensures
        i <= b64_run_end(s, i) <= s.len(),
    decreases s.len() - i,
{
    if i < s.len() && crate::tag::format::is_b64_alphabet(s[i]) {
        lemma_b64_run_end_bounds(s, i + 1);
    }
}

/// A position up to which all bytes are alphabet characters and whose own
/// byte is not (or which is the end) is the run end.
pub proof fn lemma_b64_run_end_is(s: Seq<u8>, i: int, j: int)
    requires
        0 <= i <= j <= s.len(),
        forall|k: int| i <= k < j ==> crate::tag::format::is_b64_alphabet(#[trigger] s[k]),
        j < s.len() ==> !crate::tag::format::is_b64_alphabet(s[j]),
    ensures
        b64_run_end(s, i) == j,
    decreases j - i,
{
    if i < j {
        lemma_b64_run_end_is(s, i + 1, j);
    }
}

/// The split of the tag body behind the version into newline-separated
/// base64 chunks, ending at the first NUL: the chunk list and the position
/// of that NUL, or `None` when the body is malformed.
pub open spec fn spec_chunks(s: Seq<u8>, i: int) -> Option<(Seq<Seq<u8>>, int)>
    decreases s.len() - i when 0 <= i <= s.len() via spec_chunks_decreases
{
    if i >= s.len() {
        None
    } else if s[i] == 0u8 {
        Some((Seq::empty(), i))
    } else {
        let e = b64_run_end(s, i);
        if e == i || e >= s.len() {
            None
        } else if s[e] == 0u8 {
            Some((seq![s.subrange(i, e)], e))
        } else if s[e] == 0x0Au8 {
            match spec_chunks(s, e + 1) {
                Some((cs, end)) => Some((seq![s.subrange(i, e)] + cs, end)),
                None => None,
            }
        } else {
            None
        }
    }
}

#[via_fn]
proof fn spec_chunks_decreases(s: Seq<u8>, i: int) {
    if 0 <= i < s.len() && s[i] != 0u8 {
        lemma_b64_run_end_bounds(s, i);
    }
}

/// The decode of a chunk list: each chunk must be at most 72 characters, a
/// chunk whose length is 1 modulo 4 gets a pad character appended, and the
/// per-chunk decodes are concatenated.  `None` when any chunk fails.
pub open spec fn spec_decode_chunks(cs: Seq<Seq<u8>>) -> Option<Seq<u8>>
    decreases cs.len(),
{
    if cs.len() == 0 {
        Some(Seq::empty())
    } else if cs.first().len() > 72 {
        None
    } else {
        let adj = if cs.first().len() % 4 == 1 {
            cs.first().push(0x41u8)
        } else {
            cs.first()
        };
        match crate::tag::format::b64_decode_of(adj) {
            Some(d) => match spec_decode_chunks(cs.drop_first()) {
                Some(rest) => Some(d + rest),
                None => None,
            },
            None => None,
        }
    }
}

/// Prepends already-collected chunks to the rest of a chunk split.
pub open spec fn prepend_chunks(pre: Seq<Seq<u8>>, rest: Option<(Seq<Seq<u8>>, int)>) -> Option<
    (Seq<Seq<u8>>, int),
> {
    match rest {
        Some((cs, end)) => Some((pre + cs, end)),
        None => None,
    }
}

/// Prepends already-decoded bytes to the rest of a chunk decode.
pub open spec fn prepend_decoded(pre: Seq<u8>, rest: Option<Seq<u8>>) -> Option<Seq<u8>> {
    match rest {
        Some(d) => Some(pre + d),
        None => None,
    }
}

/// Collects the newline-separated base64 chunks of the tag body, starting
/// at `i`, up to the first NUL.
fn take_base64_chunks(input: &[u8], i: usize) -> (r: Result<(Vec<Vec<u8>>, usize), Error>)
    requires
        i <= input@.len(),
    ensures
        match r {
            Ok((cs, e)) => {
                &&& i <= e <= input@.len()
                &&& spec_chunks(input@, i as int) == Some((cs.deep_view(), e as int))
            },
            Err(err) => err == Error::ParseError && spec_chunks(input@, i as int) is None,
        },
{
    let ghost s = input@;
    let mut chunks: Vec<Vec<u8>> = Vec::new();
    let mut i2 = i;
    proof {
        assert(chunks.deep_view() =~= Seq::<Seq<u8>>::empty());
    }
    loop
        invariant
            i <= i2 <= s.len(),
            s == input@,
            spec_chunks(s, i as int) == prepend_chunks(chunks.deep_view(), spec_chunks(s, i2 as int)),
        ensures
            i <= i2 <= s.len(),
            spec_chunks(s, i as int) == prepend_chunks(chunks.deep_view(), spec_chunks(s, i2 as int)),
            i2 < s.len() && s[i2 as int] == 0u8,
        decreases s.len() - i2,
    {
        if i2 == input.len() {
            return Err(Error::ParseError);
        }
        if input[i2] == 0 {
            break ;
        }
        let mut e = i2;
        while e < input.len() && crate::tag::format::is_b64_alpha(input[e])
            invariant
                i2 <= e <= s.len(),
                s == input@,
                forall|k: int|
                    i2 <= k < e ==> crate::tag::format::is_b64_alphabet(#[trigger] s[k]),
            decreases s.len() - e,
        {
            e = e + 1;
        }
        proof {
            lemma_b64_run_end_is(s, i2 as int, e as int);
        }
        if e == i2 || e == input.len() {
            return Err(Error::ParseError);
        }
        let chunk = vstd::slice::slice_to_vec(vstd::slice::slice_subrange(input, i2, e));
        if input[e] == 0 {
            let ghost prev_dv = chunks.deep_view();
            chunks.push(chunk);
            proof {
                assert(chunk.deep_view() =~= chunk@);
                assert(chunks.deep_view() =~= prev_dv.push(chunk@));
                assert(prev_dv.push(chunk@) =~= prev_dv + seq![s.subrange(i2 as int, e as int)]);
            }
            i2 = e;
            break ;
        }
        if input[e] != 0x0A {
            return Err(Error::ParseError);
        }
        let ghost prev_dv = chunks.deep_view();
        chunks.push(chunk);
        proof {
            assert(chunk.deep_view() =~= chunk@);
            assert(chunks.deep_view() =~= prev_dv.push(chunk@));
            assert(spec_chunks(s, i2 as int) == prepend_chunks(
                seq![s.subrange(i2 as int, e as int)],
                spec_chunks(s, e + 1),
            ));
            lemma_prepend_chunks_assoc(
                prev_dv,
                seq![s.subrange(i2 as int, e as int)],
                spec_chunks(s, e + 1),
            );
        }
        i2 = e + 1;
    }
    Ok((chunks, i2))
}

/// Prepending chunk lists is associative.
proof fn lemma_prepend_chunks_assoc(a: Seq<Seq<u8>>, b: Seq<Seq<u8>>, rest: Option<
    (Seq<Seq<u8>>, int),
>)
    ensures
        prepend_chunks(a, prepend_chunks(b, rest)) == prepend_chunks(a + b, rest),
{
    match rest {
        Some((cs, end)) => {
            assert(a + (b + cs) =~= (a + b) + cs);
        },
        None => {},
    }
}

/// Decodes the collected base64 chunks: at most 72 characters each, with a
/// pad character appended when a chunk's length is 1 modulo 4.
fn decode_base64_chunks(chunks: &Vec<Vec<u8>>) -> (r: Result<Vec<u8>, Error>)
    ensures
        match r {
            Ok(d) => spec_decode_chunks(chunks.deep_view()) == Some(d@),
            Err(e) => e == Error::ParseError && spec_decode_chunks(chunks.deep_view()) is None,
        },
{
    let ghost dv = chunks.deep_view();
    let mut decoded: Vec<u8> = Vec::new();
    let mut t: usize = 0;
    proof {
        assert(dv.skip(0) =~= dv);
    }
    while t < chunks.len()
        invariant
            t <= chunks@.len() == dv.len(),
            dv == chunks.deep_view(),
            spec_decode_chunks(dv) == prepend_decoded(decoded@, spec_decode_chunks(dv.skip(t as int))),
        decreases chunks@.len() - t,
    {
        proof {
            assert(dv.skip(t as int).first() == dv[t as int]);
            assert(dv.skip(t as int).drop_first() =~= dv.skip(t + 1));
            assert(dv[t as int] =~= chunks@[t as int]@);
        }
        if chunks[t].len() > 72 {
            return Err(Error::ParseError);
        }
        let mut chunk = vstd::slice::slice_to_vec(chunks[t].as_slice());
        if chunk.len() % 4 == 1 {
            chunk.push(0x41);
        }
        proof {
            if dv[t as int].len() % 4 == 1 {
                assert(chunk@ =~= dv[t as int].push(0x41u8));
            } else {
                assert(chunk@ =~= dv[t as int]);
            }
        }
        let part = match crate::tag::format::b64_decode(&chunk) {
            Some(v) => v,
            None => {
                return Err(Error::ParseError);
            },
        };
        let ghost prev = decoded@;
        decoded.extend_from_slice(part.as_slice());
        proof {
            assert(decoded@ =~= prev + part@);
            lemma_prepend_decoded_assoc(prev, part@, spec_decode_chunks(dv.skip(t + 1)));
        }
        t = t + 1;
    }
    proof {
        assert(dv.skip(dv.len() as int) =~= Seq::<Seq<u8>>::empty());
        assert(decoded@ + Seq::<u8>::empty() =~= decoded@);
    }
    Ok(decoded)
}

/// Prepending decoded bytes is associative.
proof fn lemma_prepend_decoded_assoc(a: Seq<u8>, b: Seq<u8>, rest: Option<Seq<u8>>)
    ensures
        prepend_decoded(a, prepend_decoded(b, rest)) == prepend_decoded(a + b, rest),
{
    match rest {
        Some(d) => {
            assert(a + (b + d) =~= (a + b) + d);
        },
        None => {},
    }
}

/// True when the bytes are a readable ID3 form of the tag: a two-byte
/// version, a chunk split ending at a NUL, NUL padding to the end, and a
/// decodable chunk list whose bytes start with a content version.
pub open spec fn markers2_id3_ok(s: Seq<u8>) -> bool {
    &&& s.len() >= 2
    &&& match spec_chunks(s, 2) {
        Some((cs, e)) => {
            &&& (forall|k: int| e <= k < s.len() ==> s[k] == 0u8)
            &&& match spec_decode_chunks(cs) {
                Some(d) => d.len() >= 2,
                None => false,
            }
        },
        None => false,
    }
}

/// True when the bytes are a readable Ogg form of the tag: a forgiving
/// base64 run whose decode starts with a content version.
pub open spec fn markers2_ogg_ok(s: Seq<u8>) -> bool {
    match crate::tag::format::b64_decode_of(crate::tag::format::b64_adjusted(s)) {
        Some(d) => d.len() >= 2,
        None => false,
    }
}

/// Parses the `Serato Markers2` tag from its ID3 byte form: the version
/// bytes, a newline-separated base64 run ending at a NUL, and NUL padding
/// to the end of the input.  Exactly the inputs described by
/// [`markers2_id3_ok`] parse.
pub fn parse_markers2(input: &[u8]) -> (r: Result<Markers2, Error>)
    ensures
        match r {
            Ok(m) => {
                &&& m.size == input@.len() && input@.len() >= 2
                &&& m.version == Some(
                    Version { major: input@[0], minor: input@[1] },
                )
                &&& m2_content_wf(m.content)
                &&& spec_chunks(input@, 2) matches Some((cs, e)) && spec_decode_chunks(cs)
                    matches Some(d) && (forall|k: int|
                    e <= k < input@.len() ==> input@[k] == 0u8) && d.len() >= 2
                    && version_bytes(m.content.version) == d.subrange(0, 2) && (exists|j: int|
                    #![trigger m2_marker_starts_at(d, j)]
                    2 <= j <= d.len() && !m2_marker_starts_at(d, j) && (all_size_consistent(
                        m.content.markers@,
                    ) ==> bytes_match_lenient(m2_content_bytes(m.content), d.subrange(0, j))))
                &&& markers2_id3_ok(input@)
            },
            Err(e) => e == Error::ParseError && !markers2_id3_ok(input@),
        },
{
    let size = input.len();
    let (version, i0) = match take_version(input, 0) {
        Ok(v) => v,
        Err(_) => {
            return Err(Error::ParseError);
        },
    };
    let (chunks, e) = match take_base64_chunks(input, i0) {
        Ok(v) => v,
        Err(err) => {
            return Err(err);
        },
    };
    let mut k = e;
    while k < input.len()
        invariant
            e <= k <= input@.len(),
            2 <= input@.len(),
            forall|t: int| e <= t < k ==> input@[t] == 0u8,
            spec_chunks(input@, 2) == Some((chunks.deep_view(), e as int)),
        decreases input@.len() - k,
    {
        if input[k] != 0 {
            proof {
                assert(!markers2_id3_ok(input@));
            }
            return Err(Error::ParseError);
        }
        k = k + 1;
    }
    let decoded = match decode_base64_chunks(&chunks) {
        Ok(v) => v,
        Err(err) => {
            return Err(err);
        },
    };
    let (content, consumed) = match parse_markers2_content(decoded.as_slice()) {
        Ok(v) => v,
        Err(_) => {
            return Err(Error::ParseError);
        },
    };
    let m = Markers2 { version: Some(version), size, content };
    proof {
        let d = decoded@;
        assert(2 <= consumed <= d.len() && !m2_marker_starts_at(d, consumed as int));
        if all_size_consistent(m.content.markers@) {
            assert(bytes_match_lenient(
                m2_content_bytes(m.content),
                d.subrange(0, consumed as int),
            ));
        }
        assert(exists|j: int|
            #![trigger m2_marker_starts_at(d, j)]
            2 <= j <= d.len() && !m2_marker_starts_at(d, j) && (all_size_consistent(
                m.content.markers@,
            ) ==> bytes_match_lenient(m2_content_bytes(m.content), d.subrange(0, j))));
        assert(version_bytes(m.content.version) =~= d.subrange(0, 2));
        assert(markers2_id3_ok(input@));
    }
    Ok(m)
}

/// Parses the `Serato Markers2` tag from its Ogg byte form: a plain base64
/// run (decoded with the forgiving rules) with no version prefix and no
/// envelope framing.  Exactly the inputs described by [`markers2_ogg_ok`]
/// parse.
pub fn parse_markers2_ogg(input: &[u8]) -> (r: Result<Markers2, Error>)
    ensures
        match r {
            Ok(m) => {
                &&& m.size == input@.len()
                &&& m.version is None
                &&& m2_content_wf(m.content)
                &&& crate::tag::format::b64_decode_of(crate::tag::format::b64_adjusted(input@))
                    matches Some(d) && d.len() >= 2 && version_bytes(m.content.version)
                    == d.subrange(0, 2) && (exists|j: int|
                    #![trigger m2_marker_starts_at(d, j)]
                    2 <= j <= d.len() && !m2_marker_starts_at(d, j) && (all_size_consistent(
                        m.content.markers@,
                    ) ==> bytes_match_lenient(m2_content_bytes(m.content), d.subrange(0, j))))
                &&& markers2_ogg_ok(input@)
            },
            Err(e) => e == Error::ParseError && !markers2_ogg_ok(input@),
        },
{
    let size = input.len();
    let decoded = match crate::tag::format::base64_decode(input) {
        Ok(v) => v,
        Err(_) => {
            return Err(Error::ParseError);
        },
    };
    let (content, consumed) = match parse_markers2_content(decoded.as_slice()) {
        Ok(v) => v,
        Err(_) => {
            return Err(Error::ParseError);
        },
    };
    let m = Markers2 { version: None, size, content };
    proof {
        let d = decoded@;
        assert(2 <= consumed <= d.len() && !m2_marker_starts_at(d, consumed as int));
        if all_size_consistent(m.content.markers@) {
            assert(bytes_match_lenient(
                m2_content_bytes(m.content),
                d.subrange(0, consumed as int),
            ));
        }
        assert(exists|j: int|
            #![trigger m2_marker_starts_at(d, j)]
            2 <= j <= d.len() && !m2_marker_starts_at(d, j) && (all_size_consistent(
                m.content.markers@,
            ) ==> bytes_match_lenient(m2_content_bytes(m.content), d.subrange(0, j))));
        assert(version_bytes(m.content.version) =~= d.subrange(0, 2));
        assert(markers2_ogg_ok(input@));
    }
    Ok(m)
}

/// The total byte length of the serialized tag: the version, the base64
/// lines of the content, and NUL padding up to the recorded size.
pub open spec fn m2_total_len(m: Markers2) -> int {
    let w = 2 + b64_lines_len(m2_content_bytes(m.content).len() as int);
    if m.size > w {
        m.size as int
    } else {
        w
    }
}

/// The full tag byte form of a [`Markers2`] that carries a version: the
/// version bytes, the base64 lines of the content and NUL padding up to
/// the recorded size.
pub open spec fn m2_tag_bytes(m: Markers2, v: Version) -> Seq<u8> {
    version_bytes(v) + b64_lines(m2_content_bytes(m.content)) + Seq::new(
        (m2_total_len(m) - 2 - b64_lines_len(m2_content_bytes(m.content).len() as int)) as nat,
        |t: int| 0u8,
    )
}

/// Serializes a [`Markers2`] to its tag byte form, appending to `out`: the
/// version bytes, the base64-encoded content and NUL padding up to the
/// recorded size.
///
/// Re-encoding a parsed tag whose original length included NUL padding
/// reproduces the same total length: when the recorded size covers the
/// encoded content, the output length is exactly that size.
pub fn write_markers2(out: &mut Vec<u8>, markers2: &Markers2) -> (r: Result<usize, Error>)
    requires
        m2_content_wf(markers2.content),
    ensures
        match r {
            Ok(n) => {
                &&& markers2.version matches Some(v) && final(out)@ == old(out)@ + m2_tag_bytes(
                    *markers2,
                    v,
                )
                &&& n == m2_total_len(*markers2)
                &&& final(out)@.len() == old(out)@.len() + n
                &&& (markers2.size >= 2 + b64_lines_len(
                    m2_content_bytes(markers2.content).len() as int,
                ) ==> n == markers2.size)
            },
            Err(e) => e == Error::ParseError && markers2.version is None,
        },
{
    let version = match &markers2.version {
        Some(v) => *v,
        None => {
            return Err(Error::ParseError);
        },
    };
    let start = out.len();
    write_version(out, version);
    let mut buffer: Vec<u8> = Vec::new();
    write_markers2_content(&mut buffer, &markers2.content);
    let encoded_len = base64_encode(out, buffer.as_slice());
    let mut written = out.len() - start;
    assert(written == 2 + encoded_len);
    let ghost before_pad = out@;
    let mut pad: usize = 0;
    let ghost total_pad = if markers2.size > written {
        markers2.size - written
    } else {
        0int
    };
    while written < markers2.size
        invariant
            out@ == before_pad + Seq::new(pad as nat, |t: int| 0u8),
            written == 2 + b64_lines_len(m2_content_bytes(markers2.content).len() as int) + pad,
            written <= markers2.size || pad == 0,
            pad <= written,
            total_pad == if markers2.size > 2 + b64_lines_len(
                m2_content_bytes(markers2.content).len() as int,
            ) {
                markers2.size - 2 - b64_lines_len(m2_content_bytes(markers2.content).len() as int)
            } else {
                0int
            },
        decreases markers2.size - written,
    {
        out.push(0);
        proof {
            assert(Seq::new((pad + 1) as nat, |t: int| 0u8) =~= Seq::new(
                pad as nat,
                |t: int| 0u8,
            ).push(0u8));
        }
        pad = pad + 1;
        written = written + 1;
    }
    proof {
        assert(out@ =~= old(out)@ + version_bytes(version) + b64_lines(
            m2_content_bytes(markers2.content),
        ) + Seq::new(
            (m2_total_len(*markers2) - 2 - b64_lines_len(
                m2_content_bytes(markers2.content).len() as int,
            )) as nat,
            |t: int| 0u8,
        ));
    }
    Ok(written)
}

/// The total byte length of the serialized Ogg tag: the base64 lines of
/// the content and NUL padding up to the recorded size.  The Ogg form
/// carries no version prefix and no envelope framing.
pub open spec fn m2_total_len_ogg(m: Markers2) -> int {
    let w = b64_lines_len(m2_content_bytes(m.content).len() as int);
    if m.size > w {
        m.size as int
    } else {
        w
    }
}

/// Serializes a [`Markers2`] to its Ogg byte form, appending to `out`: the
/// base64-encoded content and NUL padding up to the recorded size.
pub fn write_markers2_ogg(out: &mut Vec<u8>, markers2: &Markers2) -> (n: usize)
    requires
        m2_content_wf(markers2.content),
    ensures
        final(out)@ == old(out)@ + b64_lines(m2_content_bytes(markers2.content)) + Seq::new(
            (m2_total_len_ogg(*markers2) - b64_lines_len(
                m2_content_bytes(markers2.content).len() as int,
            )) as nat,
            |t: int| 0u8,
        ),
        n == m2_total_len_ogg(*markers2),
        final(out)@.len() == old(out)@.len() + n,
        markers2.size >= b64_lines_len(m2_content_bytes(markers2.content).len() as int) ==> n
            == markers2.size,
{
    let start = out.len();
    let mut buffer: Vec<u8> = Vec::new();
    write_markers2_content(&mut buffer, &markers2.content);
    let encoded_len = base64_encode(out, buffer.as_slice());
    let mut written = out.len() - start;
    assert(written == encoded_len);
    let ghost before_pad = out@;
    let mut pad: usize = 0;
    while written < markers2.size
        invariant
            out@ == before_pad + Seq::new(pad as nat, |t: int| 0u8),
            written == b64_lines_len(m2_content_bytes(markers2.content).len() as int) + pad,
            written <= markers2.size || pad == 0,
            pad <= written,
        decreases markers2.size - written,
    {
        out.push(0);
        proof {
            assert(Seq::new((pad + 1) as nat, |t: int| 0u8) =~= Seq::new(
                pad as nat,
                |t: int| 0u8,
            ).push(0u8));
        }
        pad = pad + 1;
        written = written + 1;
    }
    proof {
        assert(out@ =~= old(out)@ + b64_lines(m2_content_bytes(markers2.content)) + Seq::new(
            (m2_total_len_ogg(*markers2) - b64_lines_len(
                m2_content_bytes(markers2.content).len() as int,
            )) as nat,
            |t: int| 0u8,
        ));
    }
    written
}

/// The tag's name, as embedded in envelopes and ID3 frame descriptions.
pub fn markers2_tag_name() -> (r: &'static str)
    ensures
        r@ == "Serato Markers2"@,
{
    "Serato Markers2"
}

/// The FLAC Vorbis-comment key that carries this tag.
pub fn markers2_flac_comment() -> (r: &'static str)
    ensures
        r@ == "SERATO_MARKERS_V2"@,
{
    "SERATO_MARKERS_V2"
}

/// The MP4 freeform atom name that carries this tag.
pub fn markers2_mp4_atom_name() -> (r: &'static str)
    ensures
        r@ == "markersv2"@,
{
    "markersv2"
}

/// The Ogg comment key that carries this tag.
pub fn markers2_ogg_comment() -> (r: &'static str)
    ensures
        r@ == "serato_markers2"@,
{
    "serato_markers2"
}

} // verus!
