//! A plain container over the raw (ID3-format) tag payloads.
//!
//! This is a simpler interface than [`crate::tag::container::TagContainer`]:
//! each parser takes the tag's raw bytes, reports failure as a boolean, and
//! clears the slot when parsing fails.  Its merge keeps a legacy cue only
//! when `Serato Markers2` also carries that index.

use crate::tag::analysis::{analysis_bytes, Analysis};
use crate::tag::autotags::{autotags_bytes, autotags_wf, Autotags};
use crate::tag::beatgrid::{
    beatgrid_bytes, beatgrid_shape_ok, beatgrid_wf, Beatgrid, NonTerminalMarker, TerminalMarker,
};
use crate::tag::color::Color;
use crate::tag::container::{
    cue_vec_find, cue_vec_insert, cue_vec_map, cue_vec_remove, cue_vec_sorted, cue_view,
    lemma_cue_vec_map_char, lemma_loop_vec_map_char, loop_vec_find, loop_vec_insert, loop_vec_map,
    loop_vec_remove, loop_vec_sorted, loop_view, m2_cue_map, m2_loop_map, markers_cue_pairs,
    markers_loop_pairs, CueView, LoopView,
};
use crate::tag::generic::{clone_cue, clone_loop, Cue, Loop, Position};
use crate::tag::markers::{markers_wf, spec_parse_markers, Marker, MarkerType, Markers};
use crate::tag::markers2::{
    m2_bpm_locked, m2_content_wf, m2_cues, m2_loops, m2_track_color, markers2_id3_ok, Markers2,
};
use crate::tag::overview::{overview_bytes, overview_shape_ok, Overview};
use vstd::prelude::*;

verus! {

/// A merged cue as this container reports it.
#[derive(Debug, Clone, PartialEq)]
pub struct CueMarker {
    pub index: u8,
    pub position_millis: u32,
    pub color: Color,
    pub label: String,
}

/// A merged loop as this container reports it.
#[derive(Debug, Clone, PartialEq)]
pub struct LoopMarker {
    pub index: u8,
    pub start_position_millis: u32,
    pub end_position_millis: u32,
    pub color: Color,
    pub label: String,
    pub is_locked: bool,
}

/// The merged view carried by a [`CueMarker`].
pub open spec fn cm_view(c: CueMarker) -> CueView {
    CueView { index: c.index, millis: c.position_millis, color: c.color, label: c.label@ }
}

/// The merged view carried by a [`LoopMarker`]; this container does not
/// merge lock states into its loops, so the view's flag is fixed.
pub open spec fn lm_view(l: LoopMarker) -> LoopView {
    LoopView {
        index: l.index,
        start_millis: l.start_position_millis,
        end_millis: l.end_position_millis,
        color: l.color,
        is_locked: l.is_locked,
        label: l.label@,
    }
}

/// Applies one legacy cue-type entry to this container's merged cue map:
/// unlike the full tag container, a legacy cue whose index is absent from
/// the seeded map is dropped rather than added.
pub open spec fn old_merge_cue_entry(m: Map<u8, CueView>, idx: u8, mk: Marker) -> Map<u8, CueView> {
    if mk.marker_type == MarkerType::Invalid {
        m.remove(idx)
    } else if mk.marker_type == MarkerType::Cue {
        match mk.start_position {
            None => m.remove(idx),
            Some(p) => if m.dom().contains(idx) {
                m.insert(
                    idx,
                    CueView { index: idx, millis: p.millis, color: mk.color, label: m[idx].label },
                )
            } else {
                m
            },
        }
    } else {
        m
    }
}

/// Applies one legacy loop-type entry to this container's merged loop map;
/// a loop whose index is absent from the seeded map is dropped.
pub open spec fn old_merge_loop_entry(m: Map<u8, LoopView>, idx: u8, mk: Marker) -> Map<
    u8,
    LoopView,
> {
    if mk.marker_type != MarkerType::Loop {
        m
    } else {
        match (mk.start_position, mk.end_position) {
            (Some(s), Some(e)) => if m.dom().contains(idx) {
                m.insert(
                    idx,
                    LoopView {
                        index: idx,
                        start_millis: s.millis,
                        end_millis: e.millis,
                        color: mk.color,
                        is_locked: mk.is_locked,
                        label: m[idx].label,
                    },
                )
            } else {
                m
            },
            _ => m.remove(idx),
        }
    }
}

/// Folds the legacy cue entries over the seeded cue map, in order.
pub open spec fn old_merged_cue_map(m: Map<u8, CueView>, entries: Seq<(u8, Marker)>) -> Map<
    u8,
    CueView,
>
    decreases entries.len(),
{
    if entries.len() == 0 {
        m
    } else {
        old_merge_cue_entry(
            old_merged_cue_map(m, entries.drop_last()),
            entries.last().0,
            entries.last().1,
        )
    }
}

/// Folds the legacy loop entries over the seeded loop map, in order.
pub open spec fn old_merged_loop_map(m: Map<u8, LoopView>, entries: Seq<(u8, Marker)>) -> Map<
    u8,
    LoopView,
>
    decreases entries.len(),
{
    if entries.len() == 0 {
        m
    } else {
        old_merge_loop_entry(
            old_merged_loop_map(m, entries.drop_last()),
            entries.last().0,
            entries.last().1,
        )
    }
}

/// Provides a plain interface for retrieving Serato tag data from raw tag
/// payloads, with the same merge strategies for inconsistent data that
/// Serato uses.
#[derive(Debug, Clone)]
pub struct Container {
    analysis: Option<Analysis>,
    autotags: Option<Autotags>,
    beatgrid: Option<Beatgrid>,
    markers: Option<Markers>,
    markers2: Option<Markers2>,
    overview: Option<Overview>,
}

impl Container {
    /// The `Serato Analysis` slot.
    pub closed spec fn analysis_slot(self) -> Option<Analysis> {
        self.analysis
    }

    /// The `Serato Autotags` slot.
    pub closed spec fn autotags_slot(self) -> Option<Autotags> {
        self.autotags
    }

    /// The `Serato BeatGrid` slot.
    pub closed spec fn beatgrid_slot(self) -> Option<Beatgrid> {
        self.beatgrid
    }

    /// The `Serato Markers_` slot.
    pub closed spec fn markers_slot(self) -> Option<Markers> {
        self.markers
    }

    /// The `Serato Markers2` slot.
    pub closed spec fn markers2_slot(self) -> Option<Markers2> {
        self.markers2
    }

    /// The `Serato Overview` slot.
    pub closed spec fn overview_slot(self) -> Option<Overview> {
        self.overview
    }

    /// The merged cue map of the container.
    pub open spec fn cue_map(self) -> Map<u8, CueView> {
        let seeded = match self.markers2_slot() {
            Some(m2) => m2_cue_map(m2_cues(m2.content.markers@)),
            None => Map::empty(),
        };
        match self.markers_slot() {
            Some(m) => old_merged_cue_map(seeded, markers_cue_pairs(m)),
            None => seeded,
        }
    }

    /// The merged loop map of the container.
    pub open spec fn loop_map(self) -> Map<u8, LoopView> {
        let seeded = match self.markers2_slot() {
            Some(m2) => m2_loop_map(m2_loops(m2.content.markers@)),
            None => Map::empty(),
        };
        match self.markers_slot() {
            Some(m) => old_merged_loop_map(seeded, markers_loop_pairs(m)),
            None => seeded,
        }
    }

    /// Creates an empty Serato tag container.
    pub fn new() -> (r: Container)
        ensures
            r.analysis_slot() is None,
            r.autotags_slot() is None,
            r.beatgrid_slot() is None,
            r.markers_slot() is None,
            r.markers2_slot() is None,
            r.overview_slot() is None,
    {
        Container {
            analysis: None,
            autotags: None,
            beatgrid: None,
            markers: None,
            markers2: None,
            overview: None,
        }
    }

    /// Parses the `Serato Analysis` tag data; returns whether parsing
    /// failed, and clears the slot on failure.
    pub fn parse_analysis(&mut self, input: &[u8]) -> (failed: bool)
        ensures
            !failed ==> (final(self).analysis_slot() matches Some(a) && input@ == analysis_bytes(a)),
            failed ==> final(self).analysis_slot() is None && input@.len() != 2,
            final(self).autotags_slot() == old(self).autotags_slot(),
            final(self).beatgrid_slot() == old(self).beatgrid_slot(),
            final(self).markers_slot() == old(self).markers_slot(),
            final(self).markers2_slot() == old(self).markers2_slot(),
            final(self).overview_slot() == old(self).overview_slot(),
    {
        match crate::tag::analysis::parse_analysis(input) {
            Ok(a) => {
                self.analysis = Some(a);
                false
            },
            Err(_) => {
                self.analysis = None;
                true
            },
        }
    }

    /// Parses the `Serato Autotags` tag data; returns whether parsing
    /// failed, and clears the slot on failure.
    pub fn parse_autotags(&mut self, input: &[u8]) -> (failed: bool)
        ensures
            !failed ==> (final(self).autotags_slot() matches Some(a) && input@ == autotags_bytes(a)
                && autotags_wf(a)),
            failed ==> final(self).autotags_slot() is None && !(exists|a: Autotags|
                autotags_wf(a) && input@ == #[trigger] autotags_bytes(a)),
            final(self).analysis_slot() == old(self).analysis_slot(),
            final(self).beatgrid_slot() == old(self).beatgrid_slot(),
            final(self).markers_slot() == old(self).markers_slot(),
            final(self).markers2_slot() == old(self).markers2_slot(),
            final(self).overview_slot() == old(self).overview_slot(),
    {
        match crate::tag::autotags::parse_autotags(input) {
            Ok(a) => {
                self.autotags = Some(a);
                false
            },
            Err(_) => {
                self.autotags = None;
                true
            },
        }
    }

    /// Parses the `Serato BeatGrid` tag data; returns whether parsing
    /// failed, and clears the slot on failure.
    pub fn parse_beatgrid(&mut self, input: &[u8]) -> (failed: bool)
        ensures
            !failed ==> (final(self).beatgrid_slot() matches Some(b) && input@ == beatgrid_bytes(b)
                && beatgrid_wf(b)),
            failed ==> final(self).beatgrid_slot() is None && !beatgrid_shape_ok(input@),
            final(self).analysis_slot() == old(self).analysis_slot(),
            final(self).autotags_slot() == old(self).autotags_slot(),
            final(self).markers_slot() == old(self).markers_slot(),
            final(self).markers2_slot() == old(self).markers2_slot(),
            final(self).overview_slot() == old(self).overview_slot(),
    {
        match crate::tag::beatgrid::parse_beatgrid(input) {
            Ok(b) => {
                self.beatgrid = Some(b);
                false
            },
            Err(_) => {
                self.beatgrid = None;
                true
            },
        }
    }

    /// Parses the `Serato Markers_` tag data; returns whether parsing
    /// failed, and clears the slot on failure.
    pub fn parse_markers(&mut self, input: &[u8]) -> (failed: bool)
        ensures
            !failed ==> (final(self).markers_slot() matches Some(m) && spec_parse_markers(input@)
                == Some((m.version, m.entries@, m.track_color)) && markers_wf(m)),
            failed ==> final(self).markers_slot() is None && spec_parse_markers(input@) is None,
            final(self).analysis_slot() == old(self).analysis_slot(),
            final(self).autotags_slot() == old(self).autotags_slot(),
            final(self).beatgrid_slot() == old(self).beatgrid_slot(),
            final(self).markers2_slot() == old(self).markers2_slot(),
            final(self).overview_slot() == old(self).overview_slot(),
    {
        match crate::tag::markers::parse_markers(input) {
            Ok(m) => {
                self.markers = Some(m);
                false
            },
            Err(_) => {
                self.markers = None;
                true
            },
        }
    }

    /// Parses the `Serato Markers2` tag data; returns whether parsing
    /// failed, and clears the slot on failure.
    pub fn parse_markers2(&mut self, input: &[u8]) -> (failed: bool)
        ensures
            !failed ==> (final(self).markers2_slot() matches Some(m) && m2_content_wf(m.content)
                && m.size == input@.len()),
            failed ==> final(self).markers2_slot() is None && !markers2_id3_ok(input@),
            final(self).analysis_slot() == old(self).analysis_slot(),
            final(self).autotags_slot() == old(self).autotags_slot(),
            final(self).beatgrid_slot() == old(self).beatgrid_slot(),
            final(self).markers_slot() == old(self).markers_slot(),
            final(self).overview_slot() == old(self).overview_slot(),
    {
        match crate::tag::markers2::parse_markers2(input) {
            Ok(m) => {
                self.markers2 = Some(m);
                false
            },
            Err(_) => {
                self.markers2 = None;
                true
            },
        }
    }

    /// Parses the `Serato Overview` tag data; returns whether parsing
    /// failed, and clears the slot on failure.
    pub fn parse_overview(&mut self, input: &[u8]) -> (failed: bool)
        ensures
            !failed ==> (final(self).overview_slot() matches Some(o) && input@ == overview_bytes(o)),
            failed ==> final(self).overview_slot() is None && !overview_shape_ok(input@),
            final(self).analysis_slot() == old(self).analysis_slot(),
            final(self).autotags_slot() == old(self).autotags_slot(),
            final(self).beatgrid_slot() == old(self).beatgrid_slot(),
            final(self).markers_slot() == old(self).markers_slot(),
            final(self).markers2_slot() == old(self).markers2_slot(),
    {
        match crate::tag::overview::parse_overview(input) {
            Ok(o) => {
                self.overview = Some(o);
                false
            },
            Err(_) => {
                self.overview = None;
                true
            },
        }
    }

    /// Returns the autogain value from the `Serato Autotags` tag, as
    /// decimal text.
    pub fn auto_gain(&self) -> (r: Option<String>)
        ensures
            match self.autotags_slot() {
                Some(a) => r matches Some(s) && s@ == a.auto_gain@,
                None => r is None,
            },
    {
        match &self.autotags {
            Some(a) => Some(a.auto_gain.clone()),
            None => None,
        }
    }

    /// Returns the gain value from the `Serato Autotags` tag, as decimal
    /// text.
    pub fn gain_db(&self) -> (r: Option<String>)
        ensures
            match self.autotags_slot() {
                Some(a) => r matches Some(s) && s@ == a.gain_db@,
                None => r is None,
            },
    {
        match &self.autotags {
            Some(a) => Some(a.gain_db.clone()),
            None => None,
        }
    }

    /// Returns the beatgrid from the `Serato BeatGrid` tag.
    pub fn beatgrid(&self) -> (r: Option<(Vec<NonTerminalMarker>, TerminalMarker)>)
        ensures
            match self.beatgrid_slot() {
                Some(b) => r matches Some(v) && v.0@ == b.non_terminal_markers@ && v.1
                    == b.terminal_marker,
                None => r is None,
            },
    {
        match &self.beatgrid {
            Some(b) => Some(
                (vstd::slice::slice_to_vec(b.non_terminal_markers.as_slice()), b.terminal_marker),
            ),
            None => None,
        }
    }

    /// Returns the beatgrid-lock state from the `Serato Markers2` tag.
    pub fn bpm_locked(&self) -> (r: Option<bool>)
        ensures
            match self.markers2_slot() {
                Some(m2) => r == m2_bpm_locked(m2.content.markers@),
                None => r is None,
            },
    {
        match &self.markers2 {
            Some(m2) => m2.bpm_locked(),
            None => None,
        }
    }

    /// Returns the merged cues, sorted by cue index: the `Serato Markers2`
    /// cues seeded by index, then each legacy cue-type entry applied in
    /// order.  A legacy cue whose index `Serato Markers2` does not carry is
    /// dropped.
    pub fn cues(&self) -> (r: Vec<CueMarker>)
        requires
            self.markers_slot() matches Some(m) ==> m.entries@.len() <= 255,
        ensures
            forall|i: int, j: int| 0 <= i < j < r@.len() ==> r@[i].index < r@[j].index,
            forall|i: int|
                0 <= i < r@.len() ==> self.cue_map().dom().contains(#[trigger] r@[i].index)
                    && self.cue_map()[r@[i].index] == cm_view(r@[i]),
            forall|idx: u8|
                #[trigger] self.cue_map().dom().contains(idx) ==> exists|i: int|
                    0 <= i < r@.len() && (#[trigger] r@[i]).index == idx,
    {
        let mut merged: Vec<Cue> = Vec::new();
        let ghost seeded = match self.markers2_slot() {
            Some(m2) => m2_cue_map(m2_cues(m2.content.markers@)),
            None => Map::<u8, CueView>::empty(),
        };
        if let Some(m2) = &self.markers2 {
            let m2cues = m2.cues();
            let mut k: usize = 0;
            while k < m2cues.len()
                invariant
                    k <= m2cues@.len(),
                    m2cues@ == m2_cues(m2.content.markers@),
                    cue_vec_sorted(merged@),
                    cue_vec_map(merged@) == m2_cue_map(m2cues@.take(k as int)),
                decreases m2cues@.len() - k,
            {
                proof {
                    assert(m2cues@.take(k + 1).drop_last() =~= m2cues@.take(k as int));
                    assert(m2cues@.take(k + 1).last() == m2cues@[k as int]);
                }
                cue_vec_insert(&mut merged, clone_cue(&m2cues[k]));
                k = k + 1;
            }
            proof {
                assert(m2cues@.take(m2cues@.len() as int) =~= m2cues@);
            }
        }
        proof {
            assert(cue_vec_map(merged@) == seeded);
        }
        if let Some(m) = &self.markers {
            let mcues = m.cues();
            let ghost pairs = markers_cue_pairs(*m);
            proof {
                assert(mcues@ =~= pairs);
            }
            let mut k: usize = 0;
            while k < mcues.len()
                invariant
                    k <= mcues@.len(),
                    mcues@ == pairs,
                    cue_vec_sorted(merged@),
                    cue_vec_map(merged@) == old_merged_cue_map(seeded, pairs.take(k as int)),
                decreases mcues@.len() - k,
            {
                proof {
                    assert(pairs.take(k + 1).drop_last() =~= pairs.take(k as int));
                    assert(pairs.take(k + 1).last() == pairs[k as int]);
                }
                let (idx, mk) = mcues[k];
                match mk.marker_type {
                    MarkerType::Invalid => {
                        cue_vec_remove(&mut merged, idx);
                    },
                    MarkerType::Cue => {
                        match mk.start_position {
                            None => {
                                cue_vec_remove(&mut merged, idx);
                            },
                            Some(p) => {
                                let ghost before = merged@;
                                proof {
                                    lemma_cue_vec_map_char(before);
                                }
                                match cue_vec_find(&merged, idx) {
                                    Some(pos) => {
                                        let label = merged[pos].label.clone();
                                        proof {
                                            assert(exists|i: int|
                                                0 <= i < before.len() && (#[trigger] before[i]).index
                                                    == idx);
                                        }
                                        let c = Cue {
                                            index: idx,
                                            position: p,
                                            color: mk.color,
                                            label,
                                        };
                                        cue_vec_insert(&mut merged, c);
                                    },
                                    None => {
                                        proof {
                                            if cue_vec_map(before).dom().contains(idx) {
                                                assert(exists|i: int|
                                                    0 <= i < before.len() && (#[trigger] before[i]).index
                                                        == idx);
                                                assert(false);
                                            }
                                        }
                                    },
                                }
                            },
                        }
                    },
                    MarkerType::Loop => {},
                }
                k = k + 1;
            }
            proof {
                assert(pairs.take(pairs.len() as int) =~= pairs);
            }
        }
        proof {
            lemma_cue_vec_map_char(merged@);
        }
        let mut out: Vec<CueMarker> = Vec::new();
        let mut k: usize = 0;
        while k < merged.len()
            invariant
                k <= merged@.len(),
                out@.len() == k,
                forall|i: int| 0 <= i < k ==> cm_view(#[trigger] out@[i]) == cue_view(merged@[i]),
                forall|i: int| 0 <= i < k ==> (#[trigger] out@[i]).index == merged@[i].index,
            decreases merged@.len() - k,
        {
            let c = &merged[k];
            out.push(
                CueMarker {
                    index: c.index,
                    position_millis: c.position.millis,
                    color: c.color,
                    label: c.label.clone(),
                },
            );
            k = k + 1;
        }
        proof {
            assert forall|idx: u8| #[trigger]
                self.cue_map().dom().contains(idx) implies exists|i: int|
                0 <= i < out@.len() && (#[trigger] out@[i]).index == idx by {
                let i = choose|i: int| 0 <= i < merged@.len() && (#[trigger] merged@[i]).index == idx;
                assert(out@[i].index == idx);
            }
        }
        out
    }

    /// Returns the merged loops, sorted by loop index: the `Serato
    /// Markers2` loops seeded by index, then each legacy loop-type entry
    /// applied in order.  A legacy loop whose index `Serato Markers2` does
    /// not carry, or which misses a start or end position, is dropped.
    pub fn loops(&self) -> (r: Vec<LoopMarker>)
        requires
            self.markers_slot() matches Some(m) ==> m.entries@.len() <= 255,
        ensures
            forall|i: int, j: int| 0 <= i < j < r@.len() ==> r@[i].index < r@[j].index,
            forall|i: int|
                0 <= i < r@.len() ==> self.loop_map().dom().contains(#[trigger] r@[i].index)
                    && self.loop_map()[r@[i].index] == lm_view(r@[i]),
            forall|idx: u8|
                #[trigger] self.loop_map().dom().contains(idx) ==> exists|i: int|
                    0 <= i < r@.len() && (#[trigger] r@[i]).index == idx,
    {
        let mut merged: Vec<Loop> = Vec::new();
        let ghost seeded = match self.markers2_slot() {
            Some(m2) => m2_loop_map(m2_loops(m2.content.markers@)),
            None => Map::<u8, LoopView>::empty(),
        };
        if let Some(m2) = &self.markers2 {
            let m2loops = m2.loops();
            let mut k: usize = 0;
            while k < m2loops.len()
                invariant
                    k <= m2loops@.len(),
                    m2loops@ == m2_loops(m2.content.markers@),
                    loop_vec_sorted(merged@),
                    loop_vec_map(merged@) == m2_loop_map(m2loops@.take(k as int)),
                decreases m2loops@.len() - k,
            {
                proof {
                    assert(m2loops@.take(k + 1).drop_last() =~= m2loops@.take(k as int));
                    assert(m2loops@.take(k + 1).last() == m2loops@[k as int]);
                }
                loop_vec_insert(&mut merged, clone_loop(&m2loops[k]));
                k = k + 1;
            }
            proof {
                assert(m2loops@.take(m2loops@.len() as int) =~= m2loops@);
            }
        }
        proof {
            assert(loop_vec_map(merged@) == seeded);
        }
        if let Some(m) = &self.markers {
            let mloops = m.loops();
            let ghost pairs = markers_loop_pairs(*m);
            proof {
                assert(mloops@ =~= pairs);
            }
            let mut k: usize = 0;
            while k < mloops.len()
                invariant
                    k <= mloops@.len(),
                    mloops@ == pairs,
                    loop_vec_sorted(merged@),
                    loop_vec_map(merged@) == old_merged_loop_map(seeded, pairs.take(k as int)),
                decreases mloops@.len() - k,
            {
                proof {
                    assert(pairs.take(k + 1).drop_last() =~= pairs.take(k as int));
                    assert(pairs.take(k + 1).last() == pairs[k as int]);
                }
                let (idx, mk) = mloops[k];
                if matches!(mk.marker_type, MarkerType::Loop) {
                    match (mk.start_position, mk.end_position) {
                        (Some(sp), Some(ep)) => {
                            let ghost before = merged@;
                            proof {
                                lemma_loop_vec_map_char(before);
                            }
                            match loop_vec_find(&merged, idx) {
                                Some(pos) => {
                                    let label = merged[pos].label.clone();
                                    proof {
                                        assert(exists|i: int|
                                            0 <= i < before.len() && (#[trigger] before[i]).index
                                                == idx);
                                    }
                                    let l = Loop {
                                        index: idx,
                                        start_position: sp,
                                        end_position: ep,
                                        color: mk.color,
                                        is_locked: mk.is_locked,
                                        label,
                                    };
                                    loop_vec_insert(&mut merged, l);
                                },
                                None => {
                                    proof {
                                        if loop_vec_map(before).dom().contains(idx) {
                                            assert(exists|i: int|
                                                0 <= i < before.len() && (#[trigger] before[i]).index
                                                    == idx);
                                            assert(false);
                                        }
                                    }
                                },
                            }
                        },
                        _ => {
                            loop_vec_remove(&mut merged, idx);
                        },
                    }
                }
                k = k + 1;
            }
            proof {
                assert(pairs.take(pairs.len() as int) =~= pairs);
            }
        }
        proof {
            lemma_loop_vec_map_char(merged@);
        }
        let mut out: Vec<LoopMarker> = Vec::new();
        let mut k: usize = 0;
        while k < merged.len()
            invariant
                k <= merged@.len(),
                out@.len() == k,
                forall|i: int| 0 <= i < k ==> lm_view(#[trigger] out@[i]) == loop_view(merged@[i]),
                forall|i: int| 0 <= i < k ==> (#[trigger] out@[i]).index == merged@[i].index,
            decreases merged@.len() - k,
        {
            let l = &merged[k];
            out.push(
                LoopMarker {
                    index: l.index,
                    start_position_millis: l.start_position.millis,
                    end_position_millis: l.end_position.millis,
                    color: l.color,
                    label: l.label.clone(),
                    is_locked: l.is_locked,
                },
            );
            k = k + 1;
        }
        proof {
            assert forall|idx: u8| #[trigger]
                self.loop_map().dom().contains(idx) implies exists|i: int|
                0 <= i < out@.len() && (#[trigger] out@[i]).index == idx by {
                let i = choose|i: int| 0 <= i < merged@.len() && (#[trigger] merged@[i]).index == idx;
                assert(out@[i].index == idx);
            }
        }
        out
    }

    /// Returns the track color: the `Serato Markers_` color wins outright
    /// when that tag is present, else the `Serato Markers2` `COLOR`
    /// sub-marker, else nothing.
    pub fn track_color(&self) -> (r: Option<Color>)
        ensures
            match self.markers_slot() {
                Some(m) => r == Some(m.track_color),
                None => match self.markers2_slot() {
                    Some(m2) => r == m2_track_color(m2.content.markers@),
                    None => r is None,
                },
            },
    {
        match &self.markers {
            Some(m) => Some(m.track_color()),
            None => match &self.markers2 {
                Some(m2) => m2.track_color(),
                None => None,
            },
        }
    }
}

} // verus!
