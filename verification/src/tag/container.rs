//! A streamlined interface for retrieving Serato tag data.
//!
//! Some of the data in Serato's tags is redundant and may contradict each
//! other.  This container implements the same merge strategies for
//! inconsistent data that Serato uses: the legacy `Serato Markers_` tag is
//! kept synchronized on every save and wins over `Serato Markers2`, which
//! only fills the gaps that the legacy tag cannot hold (labels, flips, the
//! beatgrid lock).

use crate::error::Error;
use crate::tag::autotags::{autotags_bytes, autotags_wf, Autotags};
use crate::tag::beatgrid::{beatgrid_bytes, beatgrid_shape_ok, beatgrid_wf};
use crate::tag::color::Color;
use crate::tag::format::{b64_lines, envelope_encode_with_name, envelope_payload};
use crate::tag::generic::{clone_cue, Cue, Flip, Loop};
use crate::tag::markers::{
    cue_entries, loop_entries, markers_bytes, markers_mp4_bytes, markers_wf, spec_parse_markers,
    spec_parse_markers_mp4, Marker, MarkerType, Markers,
};
use crate::tag::markers2::{m2_content_wf, m2_tag_bytes, m2_total_len, markers2_id3_ok, markers2_ogg_ok, Markers2};
use crate::tag::markers2::{m2_cues, m2_loops};
use crate::tag::overview::{overview_bytes, overview_shape_ok};
use vstd::prelude::*;

verus! {

/// The merged view of one cue: what the container's merge of the two marker
/// tags yields for one index.
pub struct CueView {
    pub index: u8,
    pub millis: u32,
    pub color: Color,
    pub label: Seq<char>,
}

/// The merged view of one loop.
pub struct LoopView {
    pub index: u8,
    pub start_millis: u32,
    pub end_millis: u32,
    pub color: Color,
    pub is_locked: bool,
    pub label: Seq<char>,
}

/// The merged view carried by a [`Cue`] value.
pub open spec fn cue_view(c: Cue) -> CueView {
    CueView { index: c.index, millis: c.position.millis, color: c.color, label: c.label@ }
}

/// The merged view carried by a [`Loop`] value.
pub open spec fn loop_view(l: Loop) -> LoopView {
    LoopView {
        index: l.index,
        start_millis: l.start_position.millis,
        end_millis: l.end_position.millis,
        color: l.color,
        is_locked: l.is_locked,
        label: l.label@,
    }
}

/// The cue map seeded from the `Serato Markers2` cues: later sub-markers
/// with the same index win.
pub open spec fn m2_cue_map(s: Seq<Cue>) -> Map<u8, CueView>
    decreases s.len(),
{
    if s.len() == 0 {
        Map::empty()
    } else {
        m2_cue_map(s.drop_last()).insert(s.last().index, cue_view(s.last()))
    }
}

/// The loop map seeded from the `Serato Markers2` loops.
pub open spec fn m2_loop_map(s: Seq<Loop>) -> Map<u8, LoopView>
    decreases s.len(),
{
    if s.len() == 0 {
        Map::empty()
    } else {
        m2_loop_map(s.drop_last()).insert(s.last().index, loop_view(s.last()))
    }
}

/// Applies one legacy cue-type entry to the merged cue map: an `Invalid`
/// entry removes the index, a `Cue` entry with a start position overwrites
/// position and color while keeping the label already present (the legacy
/// tag carries no labels), and a `Cue` entry without a start position
/// removes the index.
pub open spec fn merge_cue_entry(m: Map<u8, CueView>, idx: u8, mk: Marker) -> Map<u8, CueView> {
    if mk.marker_type == MarkerType::Invalid {
        m.remove(idx)
    } else if mk.marker_type == MarkerType::Cue {
        match mk.start_position {
            None => m.remove(idx),
            Some(p) => m.insert(
                idx,
                CueView {
                    index: idx,
                    millis: p.millis,
                    color: mk.color,
                    label: if m.dom().contains(idx) {
                        m[idx].label
                    } else {
                        Seq::empty()
                    },
                },
            ),
        }
    } else {
        m
    }
}

/// Applies one legacy loop-type entry to the merged loop map: an entry
/// missing its start or end position is treated as unset and removes the
/// index, even when `Serato Markers2` had data for it.
pub open spec fn merge_loop_entry(m: Map<u8, LoopView>, idx: u8, mk: Marker) -> Map<u8, LoopView> {
    if mk.marker_type != MarkerType::Loop {
        m
    } else {
        match (mk.start_position, mk.end_position) {
            (Some(s), Some(e)) => m.insert(
                idx,
                LoopView {
                    index: idx,
                    start_millis: s.millis,
                    end_millis: e.millis,
                    color: mk.color,
                    is_locked: mk.is_locked,
                    label: if m.dom().contains(idx) {
                        m[idx].label
                    } else {
                        Seq::empty()
                    },
                },
            ),
            _ => m.remove(idx),
        }
    }
}

/// Folds the legacy cue entries over the seeded cue map, in order.
pub open spec fn merged_cue_map(m: Map<u8, CueView>, entries: Seq<(u8, Marker)>) -> Map<
    u8,
    CueView,
>
    decreases entries.len(),
{
    if entries.len() == 0 {
        m
    } else {
        merge_cue_entry(
            merged_cue_map(m, entries.drop_last()),
            entries.last().0,
            entries.last().1,
        )
    }
}

/// Folds the legacy loop entries over the seeded loop map, in order.
pub open spec fn merged_loop_map(m: Map<u8, LoopView>, entries: Seq<(u8, Marker)>) -> Map<
    u8,
    LoopView,
>
    decreases entries.len(),
{
    if entries.len() == 0 {
        m
    } else {
        merge_loop_entry(
            merged_loop_map(m, entries.drop_last()),
            entries.last().0,
            entries.last().1,
        )
    }
}

/// The legacy cue-type entries of a `Serato Markers_` tag, paired with
/// their cue indices.
pub open spec fn markers_cue_pairs(m: Markers) -> Seq<(u8, Marker)> {
    Seq::new(cue_entries(m.entries@).len(), |i: int| (i as u8, cue_entries(m.entries@)[i]))
}

/// The legacy loop-type entries of a `Serato Markers_` tag, paired with
/// their loop indices.
pub open spec fn markers_loop_pairs(m: Markers) -> Seq<(u8, Marker)> {
    Seq::new(loop_entries(m.entries@).len(), |i: int| (i as u8, loop_entries(m.entries@)[i]))
}

/// True when a cue list is strictly sorted by index (and so holds each
/// index at most once).
pub open spec fn cue_vec_sorted(s: Seq<Cue>) -> bool {
    forall|i: int, j: int| 0 <= i < j < s.len() ==> s[i].index < s[j].index
}

/// True when a loop list is strictly sorted by index.
pub open spec fn loop_vec_sorted(s: Seq<Loop>) -> bool {
    forall|i: int, j: int| 0 <= i < j < s.len() ==> s[i].index < s[j].index
}

/// The map carried by a cue list: later entries win, though a sorted list
/// holds each index once.
pub open spec fn cue_vec_map(s: Seq<Cue>) -> Map<u8, CueView>
    decreases s.len(),
{
    if s.len() == 0 {
        Map::empty()
    } else {
        cue_vec_map(s.drop_last()).insert(s.last().index, cue_view(s.last()))
    }
}

/// The map carried by a loop list.
pub open spec fn loop_vec_map(s: Seq<Loop>) -> Map<u8, LoopView>
    decreases s.len(),
{
    if s.len() == 0 {
        Map::empty()
    } else {
        loop_vec_map(s.drop_last()).insert(s.last().index, loop_view(s.last()))
    }
}

/// What the map carried by a sorted cue list contains: exactly the views of
/// the list's entries.
pub proof fn lemma_cue_vec_map_char(s: Seq<Cue>)
    requires
        cue_vec_sorted(s),
    ensures
        forall|idx: u8|
            #[trigger] cue_vec_map(s).dom().contains(idx) <==> exists|i: int|
                0 <= i < s.len() && (#[trigger] s[i]).index == idx,
        forall|i: int|
            0 <= i < s.len() ==> cue_vec_map(s).dom().contains(#[trigger] s[i].index)
                && cue_vec_map(s)[s[i].index] == cue_view(s[i]),
    decreases s.len(),
{
    if s.len() > 0 {
        assert(cue_vec_sorted(s.drop_last()));
        lemma_cue_vec_map_char(s.drop_last());
        assert forall|i: int|
            0 <= i < s.len() implies cue_vec_map(s).dom().contains(#[trigger] s[i].index)
            && cue_vec_map(s)[s[i].index] == cue_view(s[i]) by {
            if i < s.len() - 1 {
                assert(s.drop_last()[i] == s[i]);
                assert(s[i].index < s.last().index);
            }
        }
        assert forall|idx: u8| #[trigger]
            cue_vec_map(s).dom().contains(idx) implies exists|i: int|
            0 <= i < s.len() && (#[trigger] s[i]).index == idx by {
            if idx == s.last().index {
                assert(s[s.len() - 1].index == idx);
            } else {
                assert(cue_vec_map(s.drop_last()).dom().contains(idx));
                assert(exists|i: int|
                    0 <= i < s.drop_last().len() && (#[trigger] s.drop_last()[i]).index == idx);
                let i = choose|i: int|
                    0 <= i < s.drop_last().len() && (#[trigger] s.drop_last()[i]).index == idx;
                assert(s.drop_last()[i] == s[i]);
                assert(s[i].index == idx);
            }
        }
        assert forall|idx: u8| (exists|i: int| 0 <= i < s.len() && (#[trigger] s[i]).index == idx)
            implies #[trigger] cue_vec_map(s).dom().contains(idx) by {
            let i = choose|i: int| 0 <= i < s.len() && (#[trigger] s[i]).index == idx;
            if i < s.len() - 1 {
                assert(s.drop_last()[i].index == idx);
                assert(exists|t: int|
                    0 <= t < s.drop_last().len() && (#[trigger] s.drop_last()[t]).index == idx);
                assert(cue_vec_map(s.drop_last()).dom().contains(idx));
            } else {
                assert(idx == s.last().index);
            }
        }
    }
}

/// What the map carried by a sorted loop list contains.
pub proof fn lemma_loop_vec_map_char(s: Seq<Loop>)
    requires
        loop_vec_sorted(s),
    ensures
        forall|idx: u8|
            #[trigger] loop_vec_map(s).dom().contains(idx) <==> exists|i: int|
                0 <= i < s.len() && (#[trigger] s[i]).index == idx,
        forall|i: int|
            0 <= i < s.len() ==> loop_vec_map(s).dom().contains(#[trigger] s[i].index)
                && loop_vec_map(s)[s[i].index] == loop_view(s[i]),
    decreases s.len(),
{
    if s.len() > 0 {
        assert(loop_vec_sorted(s.drop_last()));
        lemma_loop_vec_map_char(s.drop_last());
        assert forall|i: int|
            0 <= i < s.len() implies loop_vec_map(s).dom().contains(#[trigger] s[i].index)
            && loop_vec_map(s)[s[i].index] == loop_view(s[i]) by {
            if i < s.len() - 1 {
                assert(s.drop_last()[i] == s[i]);
                assert(s[i].index < s.last().index);
            }
        }
        assert forall|idx: u8| #[trigger]
            loop_vec_map(s).dom().contains(idx) implies exists|i: int|
            0 <= i < s.len() && (#[trigger] s[i]).index == idx by {
            if idx == s.last().index {
                assert(s[s.len() - 1].index == idx);
            } else {
                assert(loop_vec_map(s.drop_last()).dom().contains(idx));
                assert(exists|i: int|
                    0 <= i < s.drop_last().len() && (#[trigger] s.drop_last()[i]).index == idx);
                let i = choose|i: int|
                    0 <= i < s.drop_last().len() && (#[trigger] s.drop_last()[i]).index == idx;
                assert(s.drop_last()[i] == s[i]);
                assert(s[i].index == idx);
            }
        }
        assert forall|idx: u8| (exists|i: int| 0 <= i < s.len() && (#[trigger] s[i]).index == idx)
            implies #[trigger] loop_vec_map(s).dom().contains(idx) by {
            let i = choose|i: int| 0 <= i < s.len() && (#[trigger] s[i]).index == idx;
            if i < s.len() - 1 {
                assert(s.drop_last()[i].index == idx);
                assert(exists|t: int|
                    0 <= t < s.drop_last().len() && (#[trigger] s.drop_last()[t]).index == idx);
                assert(loop_vec_map(s.drop_last()).dom().contains(idx));
            } else {
                assert(idx == s.last().index);
            }
        }
    }
}

/// Finds the position of the entry with the given index in a cue list.
pub(crate) fn cue_vec_find(v: &Vec<Cue>, idx: u8) -> (r: Option<usize>)
    ensures
        match r {
            Some(p) => p < v@.len() && v@[p as int].index == idx,
            None => forall|i: int| 0 <= i < v@.len() ==> (#[trigger] v@[i]).index != idx,
        },
{
    let mut k: usize = 0;
    while k < v.len()
        invariant
            k <= v@.len(),
            forall|i: int| 0 <= i < k ==> (#[trigger] v@[i]).index != idx,
        decreases v@.len() - k,
    {
        if v[k].index == idx {
            return Some(k);
        }
        k = k + 1;
    }
    None
}

/// Finds the position of the entry with the given index in a loop list.
pub(crate) fn loop_vec_find(v: &Vec<Loop>, idx: u8) -> (r: Option<usize>)
    ensures
        match r {
            Some(p) => p < v@.len() && v@[p as int].index == idx,
            None => forall|i: int| 0 <= i < v@.len() ==> (#[trigger] v@[i]).index != idx,
        },
{
    let mut k: usize = 0;
    while k < v.len()
        invariant
            k <= v@.len(),
            forall|i: int| 0 <= i < k ==> (#[trigger] v@[i]).index != idx,
        decreases v@.len() - k,
    {
        if v[k].index == idx {
            return Some(k);
        }
        k = k + 1;
    }
    None
}

/// Inserting or replacing an entry in a sorted cue list carries the map
/// insert.
proof fn lemma_cue_vec_map_splice(s1: Seq<Cue>, s2: Seq<Cue>, c: Cue)
    requires
        forall|i: int| 0 <= i < s2.len() ==> (#[trigger] s2[i]).index != c.index,
    ensures
        cue_vec_map(s1 + seq![c] + s2) == cue_vec_map(s1 + s2).insert(c.index, cue_view(c)),
    decreases s2.len(),
{
    if s2.len() == 0 {
        assert(s1 + seq![c] + s2 =~= (s1 + seq![c]));
        assert(s1 + s2 =~= s1);
        assert((s1 + seq![c]).drop_last() =~= s1);
        assert((s1 + seq![c]).last() == c);
    } else {
        let w = s2.last();
        assert((s1 + seq![c] + s2).drop_last() =~= s1 + seq![c] + s2.drop_last());
        assert((s1 + seq![c] + s2).last() == w);
        assert((s1 + s2).drop_last() =~= s1 + s2.drop_last());
        assert((s1 + s2).last() == w);
        lemma_cue_vec_map_splice(s1, s2.drop_last(), c);
        assert(w.index != c.index);
        assert(cue_vec_map(s1 + seq![c] + s2) == cue_vec_map(s1 + s2.drop_last()).insert(
            c.index,
            cue_view(c),
        ).insert(w.index, cue_view(w)));
        assert(cue_vec_map(s1 + s2.drop_last()).insert(c.index, cue_view(c)).insert(
            w.index,
            cue_view(w),
        ) =~= cue_vec_map(s1 + s2.drop_last()).insert(w.index, cue_view(w)).insert(
            c.index,
            cue_view(c),
        ));
    }
}

/// Removing an entry from a sorted cue list carries the map remove.
proof fn lemma_cue_vec_map_unsplice(s1: Seq<Cue>, s2: Seq<Cue>, c: Cue)
    requires
        forall|i: int| 0 <= i < s2.len() ==> (#[trigger] s2[i]).index != c.index,
        forall|i: int| 0 <= i < s1.len() ==> (#[trigger] s1[i]).index != c.index,
    ensures
        cue_vec_map(s1 + s2) == cue_vec_map(s1 + seq![c] + s2).remove(c.index),
{
    lemma_cue_vec_map_splice(s1, s2, c);
    lemma_cue_vec_map_no_index(s1 + s2, c.index);
    assert(cue_vec_map(s1 + seq![c] + s2).remove(c.index) =~= cue_vec_map(s1 + s2).insert(
        c.index,
        cue_view(c),
    ).remove(c.index));
    assert(cue_vec_map(s1 + s2).insert(c.index, cue_view(c)).remove(c.index) =~= cue_vec_map(
        s1 + s2,
    ).remove(c.index));
    assert(cue_vec_map(s1 + s2).remove(c.index) =~= cue_vec_map(s1 + s2));
}

/// A cue list without an index does not map it.
proof fn lemma_cue_vec_map_no_index(s: Seq<Cue>, idx: u8)
    requires
        forall|i: int| 0 <= i < s.len() ==> (#[trigger] s[i]).index != idx,
    ensures
        !cue_vec_map(s).dom().contains(idx),
    decreases s.len(),
{
    if s.len() > 0 {
        assert(forall|i: int| 0 <= i < s.drop_last().len() ==> (#[trigger] s.drop_last()[i]).index
            != idx);
        lemma_cue_vec_map_no_index(s.drop_last(), idx);
        assert(s[s.len() - 1].index != idx);
    }
}

/// Inserting or replacing an entry in a sorted loop list carries the map
/// insert.
proof fn lemma_loop_vec_map_splice(s1: Seq<Loop>, s2: Seq<Loop>, c: Loop)
    requires
        forall|i: int| 0 <= i < s2.len() ==> (#[trigger] s2[i]).index != c.index,
    ensures
        loop_vec_map(s1 + seq![c] + s2) == loop_vec_map(s1 + s2).insert(c.index, loop_view(c)),
    decreases s2.len(),
{
    if s2.len() == 0 {
        assert(s1 + seq![c] + s2 =~= (s1 + seq![c]));
        assert(s1 + s2 =~= s1);
        assert((s1 + seq![c]).drop_last() =~= s1);
        assert((s1 + seq![c]).last() == c);
    } else {
        let w = s2.last();
        assert((s1 + seq![c] + s2).drop_last() =~= s1 + seq![c] + s2.drop_last());
        assert((s1 + seq![c] + s2).last() == w);
        assert((s1 + s2).drop_last() =~= s1 + s2.drop_last());
        assert((s1 + s2).last() == w);
        lemma_loop_vec_map_splice(s1, s2.drop_last(), c);
        assert(w.index != c.index);
        assert(loop_vec_map(s1 + seq![c] + s2) == loop_vec_map(s1 + s2.drop_last()).insert(
            c.index,
            loop_view(c),
        ).insert(w.index, loop_view(w)));
        assert(loop_vec_map(s1 + s2.drop_last()).insert(c.index, loop_view(c)).insert(
            w.index,
            loop_view(w),
        ) =~= loop_vec_map(s1 + s2.drop_last()).insert(w.index, loop_view(w)).insert(
            c.index,
            loop_view(c),
        ));
    }
}

/// A loop list without an index does not map it.
proof fn lemma_loop_vec_map_no_index(s: Seq<Loop>, idx: u8)
    requires
        forall|i: int| 0 <= i < s.len() ==> (#[trigger] s[i]).index != idx,
    ensures
        !loop_vec_map(s).dom().contains(idx),
    decreases s.len(),
{
    if s.len() > 0 {
        assert(forall|i: int| 0 <= i < s.drop_last().len() ==> (#[trigger] s.drop_last()[i]).index
            != idx);
        lemma_loop_vec_map_no_index(s.drop_last(), idx);
        assert(s[s.len() - 1].index != idx);
    }
}

/// Removing an entry from a sorted loop list carries the map remove.
proof fn lemma_loop_vec_map_unsplice(s1: Seq<Loop>, s2: Seq<Loop>, c: Loop)
    requires
        forall|i: int| 0 <= i < s2.len() ==> (#[trigger] s2[i]).index != c.index,
        forall|i: int| 0 <= i < s1.len() ==> (#[trigger] s1[i]).index != c.index,
    ensures
        loop_vec_map(s1 + s2) == loop_vec_map(s1 + seq![c] + s2).remove(c.index),
{
    lemma_loop_vec_map_splice(s1, s2, c);
    lemma_loop_vec_map_no_index(s1 + s2, c.index);
    assert(loop_vec_map(s1 + seq![c] + s2).remove(c.index) =~= loop_vec_map(s1 + s2).insert(
        c.index,
        loop_view(c),
    ).remove(c.index));
    assert(loop_vec_map(s1 + s2).insert(c.index, loop_view(c)).remove(c.index) =~= loop_vec_map(
        s1 + s2,
    ).remove(c.index));
    assert(loop_vec_map(s1 + s2).remove(c.index) =~= loop_vec_map(s1 + s2));
}

/// Inserts a cue into a sorted cue list, replacing any entry with the same
/// index.
pub(crate) fn cue_vec_insert(v: &mut Vec<Cue>, c: Cue)
    requires
        cue_vec_sorted(old(v)@),
    ensures
        cue_vec_sorted(final(v)@),
        cue_vec_map(final(v)@) == cue_vec_map(old(v)@).insert(c.index, cue_view(c)),
{
    let mut p: usize = 0;
    while p < v.len() && v[p].index < c.index
        invariant
            p <= v@.len(),
            forall|i: int| 0 <= i < p ==> (#[trigger] v@[i]).index < c.index,
            cue_vec_sorted(v@),
            v@ == old(v)@,
        decreases v@.len() - p,
    {
        p = p + 1;
    }
    let ghost s = v@;
    if p < v.len() && v[p].index == c.index {
        let ghost s1 = s.take(p as int);
        let ghost s2 = s.skip(p + 1);
        let ghost w = s[p as int];
        v.remove(p);
        v.insert(p, c);
        proof {
            assert(v@ =~= s1 + seq![c] + s2);
            assert(s =~= s1 + seq![w] + s2);
            assert(forall|i: int| 0 <= i < s2.len() ==> (#[trigger] s2[i]).index != c.index) by {
                assert(forall|i: int| 0 <= i < s2.len() ==> s2[i] == s[p + 1 + i]);
            }
            assert(forall|i: int| 0 <= i < s1.len() ==> (#[trigger] s1[i]).index != c.index);
            lemma_cue_vec_map_splice(s1, s2, c);
            lemma_cue_vec_map_splice(s1, s2, w);
            assert(cue_vec_map(s1 + seq![c] + s2) =~= cue_vec_map(s1 + seq![w] + s2).insert(
                c.index,
                cue_view(c),
            ));
            assert(cue_vec_sorted(v@)) by {
                assert(forall|i: int| 0 <= i < v@.len() ==> #[trigger] v@[i].index == (if i
                    == p as int {
                    c.index
                } else {
                    s[i].index
                }));
            }
        }
    } else {
        let ghost s1 = s.take(p as int);
        let ghost s2 = s.skip(p as int);
        v.insert(p, c);
        proof {
            assert(v@ =~= s1 + seq![c] + s2);
            assert(s =~= s1 + s2);
            assert(forall|i: int| 0 <= i < s2.len() ==> (#[trigger] s2[i]).index != c.index) by {
                assert(forall|i: int| 0 <= i < s2.len() ==> s2[i] == s[p + i]);
                assert(forall|i: int| 0 <= i < s2.len() ==> c.index <= #[trigger] s2[i].index);
                assert(p < s.len() ==> s[p as int].index != c.index);
            }
            lemma_cue_vec_map_splice(s1, s2, c);
            assert(cue_vec_sorted(v@)) by {
                assert(forall|i: int| 0 <= i < s2.len() ==> c.index < #[trigger] s2[i].index) by {
                    assert(forall|i: int| 0 <= i < s2.len() ==> s2[i] == s[p + i]);
                }
            }
        }
    }
}

/// Removes the entry with the given index from a sorted cue list, if any.
pub(crate) fn cue_vec_remove(v: &mut Vec<Cue>, idx: u8)
    requires
        cue_vec_sorted(old(v)@),
    ensures
        cue_vec_sorted(final(v)@),
        cue_vec_map(final(v)@) == cue_vec_map(old(v)@).remove(idx),
{
    let ghost s = v@;
    match cue_vec_find(v, idx) {
        Some(p) => {
            let ghost s1 = s.take(p as int);
            let ghost s2 = s.skip(p + 1);
            let ghost w = s[p as int];
            v.remove(p);
            proof {
                assert(v@ =~= s1 + s2);
                assert(s =~= s1 + seq![w] + s2);
                assert(forall|i: int| 0 <= i < s2.len() ==> (#[trigger] s2[i]).index != idx) by {
                    assert(forall|i: int| 0 <= i < s2.len() ==> s2[i] == s[p + 1 + i]);
                }
                assert(forall|i: int| 0 <= i < s1.len() ==> (#[trigger] s1[i]).index != idx);
                lemma_cue_vec_map_unsplice(s1, s2, w);
                assert(cue_vec_sorted(v@)) by {
                    assert(forall|i: int| 0 <= i < v@.len() ==> v@[i] == (if i < p as int {
                        s[i]
                    } else {
                        s[i + 1]
                    }));
                }
            }
        },
        None => {
            proof {
                lemma_cue_vec_map_no_index(s, idx);
                assert(cue_vec_map(s).remove(idx) =~= cue_vec_map(s));
            }
        },
    }
}

/// Inserts a loop into a sorted loop list, replacing any entry with the
/// same index.
pub(crate) fn loop_vec_insert(v: &mut Vec<Loop>, c: Loop)
    requires
        loop_vec_sorted(old(v)@),
    ensures
        loop_vec_sorted(final(v)@),
        loop_vec_map(final(v)@) == loop_vec_map(old(v)@).insert(c.index, loop_view(c)),
{
    let mut p: usize = 0;
    while p < v.len() && v[p].index < c.index
        invariant
            p <= v@.len(),
            forall|i: int| 0 <= i < p ==> (#[trigger] v@[i]).index < c.index,
            loop_vec_sorted(v@),
            v@ == old(v)@,
        decreases v@.len() - p,
    {
        p = p + 1;
    }
    let ghost s = v@;
    if p < v.len() && v[p].index == c.index {
        let ghost s1 = s.take(p as int);
        let ghost s2 = s.skip(p + 1);
        let ghost w = s[p as int];
        v.remove(p);
        v.insert(p, c);
        proof {
            assert(v@ =~= s1 + seq![c] + s2);
            assert(s =~= s1 + seq![w] + s2);
            assert(forall|i: int| 0 <= i < s2.len() ==> (#[trigger] s2[i]).index != c.index) by {
                assert(forall|i: int| 0 <= i < s2.len() ==> s2[i] == s[p + 1 + i]);
            }
            assert(forall|i: int| 0 <= i < s1.len() ==> (#[trigger] s1[i]).index != c.index);
            lemma_loop_vec_map_splice(s1, s2, c);
            lemma_loop_vec_map_splice(s1, s2, w);
            assert(loop_vec_map(s1 + seq![c] + s2) =~= loop_vec_map(s1 + seq![w] + s2).insert(
                c.index,
                loop_view(c),
            ));
            assert(loop_vec_sorted(v@)) by {
                assert(forall|i: int| 0 <= i < v@.len() ==> #[trigger] v@[i].index == (if i
                    == p as int {
                    c.index
                } else {
                    s[i].index
                }));
            }
        }
    } else {
        let ghost s1 = s.take(p as int);
        let ghost s2 = s.skip(p as int);
        v.insert(p, c);
        proof {
            assert(v@ =~= s1 + seq![c] + s2);
            assert(s =~= s1 + s2);
            assert(forall|i: int| 0 <= i < s2.len() ==> (#[trigger] s2[i]).index != c.index) by {
                assert(forall|i: int| 0 <= i < s2.len() ==> s2[i] == s[p + i]);
                assert(forall|i: int| 0 <= i < s2.len() ==> c.index <= #[trigger] s2[i].index);
                assert(p < s.len() ==> s[p as int].index != c.index);
            }
            lemma_loop_vec_map_splice(s1, s2, c);
            assert(loop_vec_sorted(v@)) by {
                assert(forall|i: int| 0 <= i < s2.len() ==> c.index < #[trigger] s2[i].index) by {
                    assert(forall|i: int| 0 <= i < s2.len() ==> s2[i] == s[p + i]);
                }
            }
        }
    }
}

/// Removes the entry with the given index from a sorted loop list, if any.
pub(crate) fn loop_vec_remove(v: &mut Vec<Loop>, idx: u8)
    requires
        loop_vec_sorted(old(v)@),
    ensures
        loop_vec_sorted(final(v)@),
        loop_vec_map(final(v)@) == loop_vec_map(old(v)@).remove(idx),
{
    let ghost s = v@;
    match loop_vec_find(v, idx) {
        Some(p) => {
            let ghost s1 = s.take(p as int);
            let ghost s2 = s.skip(p + 1);
            let ghost w = s[p as int];
            v.remove(p);
            proof {
                assert(v@ =~= s1 + s2);
                assert(s =~= s1 + seq![w] + s2);
                assert(forall|i: int| 0 <= i < s2.len() ==> (#[trigger] s2[i]).index != idx) by {
                    assert(forall|i: int| 0 <= i < s2.len() ==> s2[i] == s[p + 1 + i]);
                }
                assert(forall|i: int| 0 <= i < s1.len() ==> (#[trigger] s1[i]).index != idx);
                lemma_loop_vec_map_unsplice(s1, s2, w);
                assert(loop_vec_sorted(v@)) by {
                    assert(forall|i: int| 0 <= i < v@.len() ==> v@[i] == (if i < p as int {
                        s[i]
                    } else {
                        s[i + 1]
                    }));
                }
            }
        },
        None => {
            proof {
                lemma_loop_vec_map_no_index(s, idx);
                assert(loop_vec_map(s).remove(idx) =~= loop_vec_map(s));
            }
        },
    }
}

/// The payload embedded in an enveloped tag: the input must be one run of
/// base64 and newline characters, which is decoded with the forgiving rules
/// and split into the envelope header, the expected tag name and the
/// payload.
pub open spec fn enveloped_parse(input: Seq<u8>, name: Seq<char>) -> Option<Seq<u8>> {
    if !(forall|k: int|
        0 <= k < input.len() ==> crate::tag::format::spec_is_base64(#[trigger] input[k]) || input[k]
            == 0x0A) {
        None
    } else {
        match crate::tag::format::b64_decode_of(crate::tag::format::b64_adjusted(input)) {
            Some(d) => match crate::tag::format::spec_envelope_split(d) {
                Some(nc) => if vstd::utf8::decode_utf8(nc.0) == name {
                    Some(nc.1)
                } else {
                    None
                },
                None => None,
            },
            None => None,
        }
    }
}

/// Decodes an enveloped tag: the whole input must be base64 text, and the
/// embedded name must be the expected one.
fn parse_enveloped_content(input: &[u8], expected_name: &str) -> (r: Result<Vec<u8>, Error>)
    ensures
        match r {
            Ok(content) => enveloped_parse(input@, expected_name@) == Some(content@),
            Err(e) => enveloped_parse(input@, expected_name@) is None,
        },
{
    let j = crate::tag::format::take_base64_with_newline(input, 0);
    if j != input.len() {
        return Err(Error::ParseError);
    }
    crate::tag::format::envelope_decode_with_name(input, expected_name)
}

/// The tag format of the data: the byte layout of a tag differs between
/// host containers, so the parser has to be told where the data comes from.
#[derive(Debug, Clone, Copy, PartialEq, Eq, Structural)]
pub enum TagFormat {
    ID3,
    FLAC,
    MP4,
    Ogg,
}

/// Provides a streamlined interface for retrieving Serato tag data, with
/// the same conflict-resolution strategies that Serato uses.
#[derive(Debug, Clone)]
pub struct TagContainer {
    autotags: Option<crate::tag::autotags::Autotags>,
    beatgrid: Option<crate::tag::beatgrid::Beatgrid>,
    markers: Option<Markers>,
    markers2: Option<Markers2>,
    overview: Option<crate::tag::overview::Overview>,
}

/// True when the container's second slot set equals the first in every slot
/// except the `Serato Autotags` one.
pub open spec fn unchanged_but_autotags(a: TagContainer, b: TagContainer) -> bool {
    &&& b.beatgrid_slot() == a.beatgrid_slot()
    &&& b.markers_slot() == a.markers_slot()
    &&& b.markers2_slot() == a.markers2_slot()
    &&& b.overview_slot() == a.overview_slot()
}

/// True when every slot but the `Serato BeatGrid` one is unchanged.
pub open spec fn unchanged_but_beatgrid(a: TagContainer, b: TagContainer) -> bool {
    &&& b.autotags_slot() == a.autotags_slot()
    &&& b.markers_slot() == a.markers_slot()
    &&& b.markers2_slot() == a.markers2_slot()
    &&& b.overview_slot() == a.overview_slot()
}

/// True when every slot but the `Serato Markers_` one is unchanged.
pub open spec fn unchanged_but_markers(a: TagContainer, b: TagContainer) -> bool {
    &&& b.autotags_slot() == a.autotags_slot()
    &&& b.beatgrid_slot() == a.beatgrid_slot()
    &&& b.markers2_slot() == a.markers2_slot()
    &&& b.overview_slot() == a.overview_slot()
}

/// True when every slot but the `Serato Markers2` one is unchanged.
pub open spec fn unchanged_but_markers2(a: TagContainer, b: TagContainer) -> bool {
    &&& b.autotags_slot() == a.autotags_slot()
    &&& b.beatgrid_slot() == a.beatgrid_slot()
    &&& b.markers_slot() == a.markers_slot()
    &&& b.overview_slot() == a.overview_slot()
}

/// True when every slot but the `Serato Overview` one is unchanged.
pub open spec fn unchanged_but_overview(a: TagContainer, b: TagContainer) -> bool {
    &&& b.autotags_slot() == a.autotags_slot()
    &&& b.beatgrid_slot() == a.beatgrid_slot()
    &&& b.markers_slot() == a.markers_slot()
    &&& b.markers2_slot() == a.markers2_slot()
}

impl TagContainer {
    /// The filled slots hold values whose lengths fit the wire format's
    /// count and length fields; parsing always stores such values.
    pub open spec fn container_wf(self) -> bool {
        &&& (self.beatgrid_slot() matches Some(b) ==> beatgrid_wf(b))
        &&& (self.markers_slot() matches Some(m) ==> markers_wf(m))
        &&& (self.markers2_slot() matches Some(m) ==> m2_content_wf(m.content))
    }

    /// The `Serato Autotags` slot.
    pub closed spec fn autotags_slot(self) -> Option<crate::tag::autotags::Autotags> {
        self.autotags
    }

    /// The `Serato BeatGrid` slot.
    pub closed spec fn beatgrid_slot(self) -> Option<crate::tag::beatgrid::Beatgrid> {
        self.beatgrid
    }

    /// The `Serato Markers_` slot.
    pub closed spec fn markers_slot(self) -> Option<Markers> {
        self.markers
    }

    /// The `Serato Markers2` slot.
    pub closed spec fn markers2_slot(self) -> Option<Markers2> {
        self.markers2
    }

    /// The `Serato Overview` slot.
    pub closed spec fn overview_slot(self) -> Option<crate::tag::overview::Overview> {
        self.overview
    }

    /// The merged cue map of the container: the `Serato Markers2` cues,
    /// overridden by the legacy `Serato Markers_` cue entries.
    pub open spec fn cue_map(self) -> Map<u8, CueView> {
        let seeded = match self.markers2_slot() {
            Some(m2) => m2_cue_map(m2_cues(m2.content.markers@)),
            None => Map::empty(),
        };
        match self.markers_slot() {
            Some(m) => merged_cue_map(seeded, markers_cue_pairs(m)),
            None => seeded,
        }
    }

    /// The merged loop map of the container.
    pub open spec fn loop_map(self) -> Map<u8, LoopView> {
        let seeded = match self.markers2_slot() {
            Some(m2) => m2_loop_map(m2_loops(m2.content.markers@)),
            None => Map::empty(),
        };
        match self.markers_slot() {
            Some(m) => merged_loop_map(seeded, markers_loop_pairs(m)),
            None => seeded,
        }
    }

    /// Parses the `Serato Autotags` tag into its slot; on failure the slot
    /// keeps its prior value.
    pub fn parse_autotags(&mut self, input: &[u8], tag_format: TagFormat) -> (r: Result<(), Error>)
        ensures
            match r {
                Ok(()) => {
                    &&& final(self).autotags_slot() matches Some(a) && autotags_wf(a) && match tag_format {
                        TagFormat::ID3 => input@ == autotags_bytes(a),
                        TagFormat::FLAC => enveloped_parse(input@, "Serato Autotags"@) == Some(
                            autotags_bytes(a),
                        ),
                        TagFormat::MP4 => enveloped_parse(input@, "Serato Autotags"@) == Some(
                            autotags_bytes(a),
                        ),
                        TagFormat::Ogg => false,
                    }
                    &&& unchanged_but_autotags(*old(self), *final(self))
                    &&& (old(self).container_wf() ==> final(self).container_wf())
                },
                Err(e) => {
                    &&& *final(self) == *old(self)
                    &&& match tag_format {
                        TagFormat::ID3 => !(exists|a: Autotags|
                            autotags_wf(a) && input@ == #[trigger] autotags_bytes(a)),
                        TagFormat::FLAC | TagFormat::MP4 => enveloped_parse(
                            input@,
                            "Serato Autotags"@,
                        ) matches Some(content) ==> !(exists|a: Autotags|
                            autotags_wf(a) && content == #[trigger] autotags_bytes(a)),
                        TagFormat::Ogg => e == Error::UnsupportedTagFormat,
                    }
                },
            },
    {
        match tag_format {
            TagFormat::ID3 => {
                let a = crate::tag::autotags::parse_autotags(input)?;
                self.autotags = Some(a);
            },
            TagFormat::FLAC | TagFormat::MP4 => {
                let content = parse_enveloped_content(input, "Serato Autotags")?;
                let a = crate::tag::autotags::parse_autotags(content.as_slice())?;
                self.autotags = Some(a);
            },
            TagFormat::Ogg => {
                return Err(Error::UnsupportedTagFormat);
            },
        }
        Ok(())
    }

    /// Serializes the `Serato Autotags` slot; an empty slot is an
    /// [`Error::NoTagDataAvailable`].
    pub fn write_autotags(&self, tag_format: TagFormat) -> (r: Result<Vec<u8>, Error>)
        ensures
            match r {
                Ok(out) => {
                    &&& self.autotags_slot() matches Some(a) && match tag_format {
                        TagFormat::ID3 => out@ == autotags_bytes(a),
                        TagFormat::FLAC | TagFormat::MP4 => out@ == b64_lines(
                            envelope_payload("Serato Autotags"@, autotags_bytes(a)),
                        ),
                        TagFormat::Ogg => false,
                    }
                },
                Err(e) => {
                    &&& (self.autotags_slot() is None ==> e == Error::NoTagDataAvailable)
                    &&& (self.autotags_slot() is Some && tag_format == TagFormat::Ogg ==> e
                        == Error::UnsupportedTagFormat)
                },
            },
        self.autotags_slot() is Some && tag_format != TagFormat::Ogg ==> r is Ok,
    {
        let tag = match &self.autotags {
            Some(x) => x,
            None => {
                return Err(Error::NoTagDataAvailable);
            },
        };
        let mut body: Vec<u8> = Vec::new();
        crate::tag::autotags::write_autotags(&mut body, tag);
        match tag_format {
            TagFormat::ID3 => Ok(body),
            TagFormat::FLAC | TagFormat::MP4 => {
                let mut out: Vec<u8> = Vec::new();
                envelope_encode_with_name(&mut out, body.as_slice(), "Serato Autotags");
                Ok(out)
            },
            TagFormat::Ogg => Err(Error::UnsupportedTagFormat),
        }
    }

    /// Parses the `Serato BeatGrid` tag into its slot; on failure the slot
    /// keeps its prior value.
    pub fn parse_beatgrid(&mut self, input: &[u8], tag_format: TagFormat) -> (r: Result<(), Error>)
        ensures
            match r {
                Ok(()) => {
                    &&& final(self).beatgrid_slot() matches Some(b) && beatgrid_wf(b)
                        && match tag_format {
                        TagFormat::ID3 => input@ == beatgrid_bytes(b),
                        TagFormat::FLAC | TagFormat::MP4 => enveloped_parse(
                            input@,
                            "Serato BeatGrid"@,
                        ) == Some(beatgrid_bytes(b)),
                        TagFormat::Ogg => false,
                    }
                    &&& unchanged_but_beatgrid(*old(self), *final(self))
                    &&& (old(self).container_wf() ==> final(self).container_wf())
                },
                Err(e) => {
                    &&& *final(self) == *old(self)
                    &&& match tag_format {
                        TagFormat::ID3 => !beatgrid_shape_ok(input@),
                        TagFormat::FLAC | TagFormat::MP4 => enveloped_parse(
                            input@,
                            "Serato BeatGrid"@,
                        ) matches Some(content) ==> !beatgrid_shape_ok(content),
                        TagFormat::Ogg => e == Error::UnsupportedTagFormat,
                    }
                },
            },
    {
        match tag_format {
            TagFormat::ID3 => {
                let b = crate::tag::beatgrid::parse_beatgrid(input)?;
                self.beatgrid = Some(b);
            },
            TagFormat::FLAC | TagFormat::MP4 => {
                let content = parse_enveloped_content(input, "Serato BeatGrid")?;
                let b = crate::tag::beatgrid::parse_beatgrid(content.as_slice())?;
                self.beatgrid = Some(b);
            },
            TagFormat::Ogg => {
                return Err(Error::UnsupportedTagFormat);
            },
        }
        Ok(())
    }

    /// Serializes the `Serato BeatGrid` slot.
    pub fn write_beatgrid(&self, tag_format: TagFormat) -> (r: Result<Vec<u8>, Error>)
        requires
            self.container_wf(),
        ensures
            match r {
                Ok(out) => {
                    &&& self.beatgrid_slot() matches Some(b) && match tag_format {
                        TagFormat::ID3 => out@ == beatgrid_bytes(b),
                        TagFormat::FLAC | TagFormat::MP4 => out@ == b64_lines(
                            envelope_payload("Serato BeatGrid"@, beatgrid_bytes(b)),
                        ),
                        TagFormat::Ogg => false,
                    }
                },
                Err(e) => {
                    &&& (self.beatgrid_slot() is None ==> e == Error::NoTagDataAvailable)
                    &&& (self.beatgrid_slot() is Some && tag_format == TagFormat::Ogg ==> e
                        == Error::UnsupportedTagFormat)
                },
            },
        self.beatgrid_slot() is Some && tag_format != TagFormat::Ogg ==> r is Ok,
    {
        let tag = match &self.beatgrid {
            Some(x) => x,
            None => {
                return Err(Error::NoTagDataAvailable);
            },
        };
        let mut body: Vec<u8> = Vec::new();
        crate::tag::beatgrid::write_beatgrid(&mut body, tag);
        match tag_format {
            TagFormat::ID3 => Ok(body),
            TagFormat::FLAC | TagFormat::MP4 => {
                let mut out: Vec<u8> = Vec::new();
                envelope_encode_with_name(&mut out, body.as_slice(), "Serato BeatGrid");
                Ok(out)
            },
            TagFormat::Ogg => Err(Error::UnsupportedTagFormat),
        }
    }

    /// Parses the `Serato Markers_` tag into its slot; on failure the slot
    /// keeps its prior value.  The tag has no FLAC form.
    pub fn parse_markers(&mut self, input: &[u8], tag_format: TagFormat) -> (r: Result<(), Error>)
        ensures
            match r {
                Ok(()) => {
                    &&& final(self).markers_slot() matches Some(m) && markers_wf(m)
                        && match tag_format {
                        TagFormat::ID3 => spec_parse_markers(input@) == Some(
                            (m.version, m.entries@, m.track_color),
                        ),
                        TagFormat::MP4 => enveloped_parse(input@, "Serato Markers_"@)
                            matches Some(content) && spec_parse_markers_mp4(content) == Some(
                            (m.version, m.entries@, m.track_color),
                        ),
                        _ => false,
                    }
                    &&& unchanged_but_markers(*old(self), *final(self))
                    &&& (old(self).container_wf() ==> final(self).container_wf())
                },
                Err(e) => {
                    &&& *final(self) == *old(self)
                    &&& match tag_format {
                        TagFormat::ID3 => spec_parse_markers(input@) is None,
                        TagFormat::MP4 => enveloped_parse(input@, "Serato Markers_"@)
                            matches Some(content) ==> spec_parse_markers_mp4(content) is None,
                        TagFormat::FLAC | TagFormat::Ogg => e == Error::UnsupportedTagFormat,
                    }
                },
            },
    {
        match tag_format {
            TagFormat::ID3 => {
                let m = crate::tag::markers::parse_markers(input)?;
                self.markers = Some(m);
            },
            TagFormat::MP4 => {
                let content = parse_enveloped_content(input, "Serato Markers_")?;
                let m = crate::tag::markers::parse_markers_mp4(content.as_slice())?;
                self.markers = Some(m);
            },
            _ => {
                return Err(Error::UnsupportedTagFormat);
            },
        }
        Ok(())
    }

    /// Serializes the `Serato Markers_` slot.  The tag has no FLAC form.
    pub fn write_markers(&self, tag_format: TagFormat) -> (r: Result<Vec<u8>, Error>)
        requires
            self.container_wf(),
        ensures
            match r {
                Ok(out) => {
                    &&& self.markers_slot() matches Some(m) && match tag_format {
                        TagFormat::ID3 => out@ == markers_bytes(m),
                        TagFormat::MP4 => out@ == b64_lines(
                            envelope_payload("Serato Markers_"@, markers_mp4_bytes(m)),
                        ),
                        _ => false,
                    }
                },
                Err(e) => {
                    &&& (self.markers_slot() is None ==> e == Error::NoTagDataAvailable)
                    &&& (self.markers_slot() is Some && (tag_format == TagFormat::Ogg || tag_format
                        == TagFormat::FLAC) ==> e == Error::UnsupportedTagFormat)
                },
            },
        self.markers_slot() is Some && (tag_format == TagFormat::ID3 || tag_format
            == TagFormat::MP4) ==> r is Ok,
    {
        let tag = match &self.markers {
            Some(x) => x,
            None => {
                return Err(Error::NoTagDataAvailable);
            },
        };
        match tag_format {
            TagFormat::ID3 => {
                let mut body: Vec<u8> = Vec::new();
                crate::tag::markers::write_markers(&mut body, tag);
                Ok(body)
            },
            TagFormat::MP4 => {
                let mut body: Vec<u8> = Vec::new();
                crate::tag::markers::write_markers_mp4(&mut body, tag);
                let mut out: Vec<u8> = Vec::new();
                envelope_encode_with_name(&mut out, body.as_slice(), "Serato Markers_");
                Ok(out)
            },
            _ => Err(Error::UnsupportedTagFormat),
        }
    }

    /// Parses the `Serato Markers2` tag into its slot; on failure the slot
    /// keeps its prior value.
    pub fn parse_markers2(&mut self, input: &[u8], tag_format: TagFormat) -> (r: Result<(), Error>)
        ensures
            match r {
                Ok(()) => {
                    &&& final(self).markers2_slot() matches Some(m) && m2_content_wf(m.content) && (
                    tag_format == TagFormat::Ogg <==> m.version is None) && match tag_format {
                        TagFormat::ID3 | TagFormat::Ogg => m.size == input@.len(),
                        TagFormat::FLAC | TagFormat::MP4 => enveloped_parse(
                            input@,
                            "Serato Markers2"@,
                        ) matches Some(content) && m.size == content.len(),
                    }
                    &&& unchanged_but_markers2(*old(self), *final(self))
                    &&& (old(self).container_wf() ==> final(self).container_wf())
                },
                Err(e) => {
                    &&& *final(self) == *old(self)
                    &&& match tag_format {
                        TagFormat::ID3 => !markers2_id3_ok(input@),
                        TagFormat::FLAC | TagFormat::MP4 => enveloped_parse(
                            input@,
                            "Serato Markers2"@,
                        ) matches Some(content) ==> !markers2_id3_ok(content),
                        TagFormat::Ogg => !markers2_ogg_ok(input@),
                    }
                },
            },
    {
        match tag_format {
            TagFormat::ID3 => {
                let m = crate::tag::markers2::parse_markers2(input)?;
                self.markers2 = Some(m);
            },
            TagFormat::FLAC | TagFormat::MP4 => {
                let content = parse_enveloped_content(input, "Serato Markers2")?;
                let m = crate::tag::markers2::parse_markers2(content.as_slice())?;
                self.markers2 = Some(m);
            },
            TagFormat::Ogg => {
                let m = crate::tag::markers2::parse_markers2_ogg(input)?;
                self.markers2 = Some(m);
            },
        }
        Ok(())
    }

    /// Serializes the `Serato Markers2` slot.
    pub fn write_markers2(&self, tag_format: TagFormat) -> (r: Result<Vec<u8>, Error>)
        requires
            self.container_wf(),
        ensures
            match r {
                Ok(out) => {
                    &&& self.markers2_slot() matches Some(m) && m.version matches Some(v)
                        && match tag_format {
                        TagFormat::ID3 => out@ == m2_tag_bytes(m, v) && out@.len() == m2_total_len(
                            m,
                        ),
                        TagFormat::FLAC | TagFormat::MP4 => out@ == b64_lines(
                            envelope_payload("Serato Markers2"@, m2_tag_bytes(m, v)),
                        ),
                        TagFormat::Ogg => false,
                    }
                },
                Err(e) => {
                    &&& (self.markers2_slot() is None ==> e == Error::NoTagDataAvailable)
                    &&& (self.markers2_slot() is Some && tag_format == TagFormat::Ogg ==> e
                        == Error::UnsupportedTagFormat)
                },
            },
        (self.markers2_slot() matches Some(m) && m.version is Some && tag_format
            != TagFormat::Ogg) ==> r is Ok,
    {
        let tag = match &self.markers2 {
            Some(x) => x,
            None => {
                return Err(Error::NoTagDataAvailable);
            },
        };
        match tag_format {
            TagFormat::ID3 => {
                let mut body: Vec<u8> = Vec::new();
                let n = crate::tag::markers2::write_markers2(&mut body, tag)?;
                Ok(body)
            },
            TagFormat::FLAC | TagFormat::MP4 => {
                let mut body: Vec<u8> = Vec::new();
                crate::tag::markers2::write_markers2(&mut body, tag)?;
                let mut out: Vec<u8> = Vec::new();
                envelope_encode_with_name(&mut out, body.as_slice(), "Serato Markers2");
                Ok(out)
            },
            TagFormat::Ogg => Err(Error::UnsupportedTagFormat),
        }
    }

    /// Parses the `Serato Overview` tag into its slot; on failure the slot
    /// keeps its prior value.
    pub fn parse_overview(&mut self, input: &[u8], tag_format: TagFormat) -> (r: Result<(), Error>)
        ensures
            match r {
                Ok(()) => {
                    &&& final(self).overview_slot() matches Some(o) && match tag_format {
                        TagFormat::ID3 => input@ == overview_bytes(o),
                        TagFormat::FLAC | TagFormat::MP4 => enveloped_parse(
                            input@,
                            "Serato Overview"@,
                        ) == Some(overview_bytes(o)),
                        TagFormat::Ogg => false,
                    }
                    &&& unchanged_but_overview(*old(self), *final(self))
                    &&& (old(self).container_wf() ==> final(self).container_wf())
                },
                Err(e) => {
                    &&& *final(self) == *old(self)
                    &&& match tag_format {
                        TagFormat::ID3 => !overview_shape_ok(input@),
                        TagFormat::FLAC | TagFormat::MP4 => enveloped_parse(
                            input@,
                            "Serato Overview"@,
                        ) matches Some(content) ==> !overview_shape_ok(content),
                        TagFormat::Ogg => e == Error::UnsupportedTagFormat,
                    }
                },
            },
    {
        match tag_format {
            TagFormat::ID3 => {
                let o = crate::tag::overview::parse_overview(input)?;
                self.overview = Some(o);
            },
            TagFormat::FLAC | TagFormat::MP4 => {
                let content = parse_enveloped_content(input, "Serato Overview")?;
                let o = crate::tag::overview::parse_overview(content.as_slice())?;
                self.overview = Some(o);
            },
            TagFormat::Ogg => {
                return Err(Error::UnsupportedTagFormat);
            },
        }
        Ok(())
    }

    /// Serializes the `Serato Overview` slot.
    pub fn write_overview(&self, tag_format: TagFormat) -> (r: Result<Vec<u8>, Error>)
        ensures
            match r {
                Ok(out) => {
                    &&& self.overview_slot() matches Some(o) && match tag_format {
                        TagFormat::ID3 => out@ == overview_bytes(o),
                        TagFormat::FLAC | TagFormat::MP4 => out@ == b64_lines(
                            envelope_payload("Serato Overview"@, overview_bytes(o)),
                        ),
                        TagFormat::Ogg => false,
                    }
                },
                Err(e) => {
                    &&& (self.overview_slot() is None ==> e == Error::NoTagDataAvailable)
                    &&& (self.overview_slot() is Some && tag_format == TagFormat::Ogg ==> e
                        == Error::UnsupportedTagFormat)
                },
            },
        self.overview_slot() is Some && tag_format != TagFormat::Ogg ==> r is Ok,
    {
        let tag = match &self.overview {
            Some(x) => x,
            None => {
                return Err(Error::NoTagDataAvailable);
            },
        };
        let mut body: Vec<u8> = Vec::new();
        crate::tag::overview::write_overview(&mut body, tag);
        match tag_format {
            TagFormat::ID3 => Ok(body),
            TagFormat::FLAC | TagFormat::MP4 => {
                let mut out: Vec<u8> = Vec::new();
                envelope_encode_with_name(&mut out, body.as_slice(), "Serato Overview");
                Ok(out)
            },
            TagFormat::Ogg => Err(Error::UnsupportedTagFormat),
        }
    }

    /// Creates an empty Serato tag container.
    pub fn new() -> (r: TagContainer)
        ensures
            r.container_wf(),
            r.autotags_slot() is None,
            r.beatgrid_slot() is None,
            r.markers_slot() is None,
            r.markers2_slot() is None,
            r.overview_slot() is None,
    {
        TagContainer { autotags: None, beatgrid: None, markers: None, markers2: None, overview: None }
    }

    /// Returns the merged cues of the container, sorted by cue index: the
    /// `Serato Markers2` cues seeded by index, then each legacy cue-type
    /// entry applied in order (an `Invalid` entry or a cue without a start
    /// position deletes the index; a set cue overwrites position and color
    /// but keeps the `Serato Markers2` label).
    pub fn cues(&self) -> (r: Vec<Cue>)
        requires
            self.markers_slot() matches Some(m) ==> m.entries@.len() <= 255,
        ensures
            cue_vec_sorted(r@),
            forall|i: int|
                0 <= i < r@.len() ==> self.cue_map().dom().contains(#[trigger] r@[i].index)
                    && self.cue_map()[r@[i].index] == cue_view(r@[i]),
            forall|idx: u8|
                #[trigger] self.cue_map().dom().contains(idx) ==> exists|i: int|
                    0 <= i < r@.len() && (#[trigger] r@[i]).index == idx,
    {
        let mut merged: Vec<Cue> = Vec::new();
        let ghost seeded = match self.markers2_slot() {
            Some(m2) => m2_cue_map(m2_cues(m2.content.markers@)),
            None => Map::<u8, CueView>::empty(),
        };
        if let Some(m2) = &self.markers2 {
            let m2cues = m2.cues();
            let mut k: usize = 0;
            while k < m2cues.len()
                invariant
                    k <= m2cues@.len(),
                    m2cues@ == m2_cues(m2.content.markers@),
                    cue_vec_sorted(merged@),
                    cue_vec_map(merged@) == m2_cue_map(m2cues@.take(k as int)),
                decreases m2cues@.len() - k,
            {
                proof {
                    assert(m2cues@.take(k + 1).drop_last() =~= m2cues@.take(k as int));
                    assert(m2cues@.take(k + 1).last() == m2cues@[k as int]);
                }
                cue_vec_insert(&mut merged, clone_cue(&m2cues[k]));
                k = k + 1;
            }
            proof {
                assert(m2cues@.take(m2cues@.len() as int) =~= m2cues@);
            }
        }
        proof {
            assert(cue_vec_map(merged@) == seeded);
        }
        if let Some(m) = &self.markers {
            let mcues = m.cues();
            let ghost pairs = markers_cue_pairs(*m);
            proof {
                assert(mcues@ =~= pairs);
            }
            let mut k: usize = 0;
            while k < mcues.len()
                invariant
                    k <= mcues@.len(),
                    mcues@ == pairs,
                    cue_vec_sorted(merged@),
                    cue_vec_map(merged@) == merged_cue_map(seeded, pairs.take(k as int)),
                decreases mcues@.len() - k,
            {
                proof {
                    assert(pairs.take(k + 1).drop_last() =~= pairs.take(k as int));
                    assert(pairs.take(k + 1).last() == pairs[k as int]);
                }
                let (idx, mk) = mcues[k];
                match mk.marker_type {
                    MarkerType::Invalid => {
                        cue_vec_remove(&mut merged, idx);
                    },
                    MarkerType::Cue => {
                        match mk.start_position {
                            None => {
                                cue_vec_remove(&mut merged, idx);
                            },
                            Some(p) => {
                                let ghost before = merged@;
                                let label: String = match cue_vec_find(&merged, idx) {
                                    Some(pos) => merged[pos].label.clone(),
                                    None => String::new(),
                                };
                                proof {
                                    lemma_cue_vec_map_char(before);
                                    if cue_vec_map(before).dom().contains(idx) {
                                        assert(exists|i: int|
                                            0 <= i < before.len() && (#[trigger] before[i]).index
                                                == idx);
                                    }
                                }
                                let c = Cue { index: idx, position: p, color: mk.color, label };
                                cue_vec_insert(&mut merged, c);
                            },
                        }
                    },
                    MarkerType::Loop => {},
                }
                k = k + 1;
            }
            proof {
                assert(pairs.take(pairs.len() as int) =~= pairs);
            }
        }
        proof {
            lemma_cue_vec_map_char(merged@);
        }
        merged
    }

    /// Returns the merged loops of the container, sorted by loop index: the
    /// `Serato Markers2` loops seeded by index, then each legacy loop-type
    /// entry applied in order (an entry missing its start or end position
    /// deletes the index, even when `Serato Markers2` had data for it).
    pub fn loops(&self) -> (r: Vec<Loop>)
        requires
            self.markers_slot() matches Some(m) ==> m.entries@.len() <= 255,
        ensures
            loop_vec_sorted(r@),
            forall|i: int|
                0 <= i < r@.len() ==> self.loop_map().dom().contains(#[trigger] r@[i].index)
                    && self.loop_map()[r@[i].index] == loop_view(r@[i]),
            forall|idx: u8|
                #[trigger] self.loop_map().dom().contains(idx) ==> exists|i: int|
                    0 <= i < r@.len() && (#[trigger] r@[i]).index == idx,
    {
        let mut merged: Vec<Loop> = Vec::new();
        let ghost seeded = match self.markers2_slot() {
            Some(m2) => m2_loop_map(m2_loops(m2.content.markers@)),
            None => Map::<u8, LoopView>::empty(),
        };
        if let Some(m2) = &self.markers2 {
            let m2loops = m2.loops();
            let mut k: usize = 0;
            while k < m2loops.len()
                invariant
                    k <= m2loops@.len(),
                    m2loops@ == m2_loops(m2.content.markers@),
                    loop_vec_sorted(merged@),
                    loop_vec_map(merged@) == m2_loop_map(m2loops@.take(k as int)),
                decreases m2loops@.len() - k,
            {
                proof {
                    assert(m2loops@.take(k + 1).drop_last() =~= m2loops@.take(k as int));
                    assert(m2loops@.take(k + 1).last() == m2loops@[k as int]);
                }
                loop_vec_insert(&mut merged, crate::tag::generic::clone_loop(&m2loops[k]));
                k = k + 1;
            }
            proof {
                assert(m2loops@.take(m2loops@.len() as int) =~= m2loops@);
            }
        }
        proof {
            assert(loop_vec_map(merged@) == seeded);
        }
        if let Some(m) = &self.markers {
            let mloops = m.loops();
            let ghost pairs = markers_loop_pairs(*m);
            proof {
                assert(mloops@ =~= pairs);
            }
            let mut k: usize = 0;
            while k < mloops.len()
                invariant
                    k <= mloops@.len(),
                    mloops@ == pairs,
                    loop_vec_sorted(merged@),
                    loop_vec_map(merged@) == merged_loop_map(seeded, pairs.take(k as int)),
                decreases mloops@.len() - k,
            {
                proof {
                    assert(pairs.take(k + 1).drop_last() =~= pairs.take(k as int));
                    assert(pairs.take(k + 1).last() == pairs[k as int]);
                }
                let (idx, mk) = mloops[k];
                if matches!(mk.marker_type, MarkerType::Loop) {
                    match (mk.start_position, mk.end_position) {
                        (Some(sp), Some(ep)) => {
                            let ghost before = merged@;
                            let label: String = match loop_vec_find(&merged, idx) {
                                Some(pos) => merged[pos].label.clone(),
                                None => String::new(),
                            };
                            proof {
                                lemma_loop_vec_map_char(before);
                                if loop_vec_map(before).dom().contains(idx) {
                                    assert(exists|i: int|
                                        0 <= i < before.len() && (#[trigger] before[i]).index
                                            == idx);
                                }
                            }
                            let l = Loop {
                                index: idx,
                                start_position: sp,
                                end_position: ep,
                                color: mk.color,
                                is_locked: mk.is_locked,
                                label,
                            };
                            loop_vec_insert(&mut merged, l);
                        },
                        _ => {
                            loop_vec_remove(&mut merged, idx);
                        },
                    }
                }
                k = k + 1;
            }
            proof {
                assert(pairs.take(pairs.len() as int) =~= pairs);
            }
        }
        proof {
            lemma_loop_vec_map_char(merged@);
        }
        merged
    }

    /// Returns the track color: the `Serato Markers_` color wins outright
    /// when that tag is present, else the `Serato Markers2` `COLOR`
    /// sub-marker, else nothing.
    pub fn track_color(&self) -> (r: Option<Color>)
        ensures
            match self.markers_slot() {
                Some(m) => r == Some(m.track_color),
                None => match self.markers2_slot() {
                    Some(m2) => r == crate::tag::markers2::m2_track_color(m2.content.markers@),
                    None => r is None,
                },
            },
    {
        match &self.markers {
            Some(m) => Some(m.track_color()),
            None => match &self.markers2 {
                Some(m2) => m2.track_color(),
                None => None,
            },
        }
    }

    /// Returns the beatgrid-lock state, which only the `Serato Markers2`
    /// tag carries.
    pub fn bpm_locked(&self) -> (r: Option<bool>)
        ensures
            match self.markers2_slot() {
                Some(m2) => r == crate::tag::markers2::m2_bpm_locked(m2.content.markers@),
                None => r is None,
            },
    {
        match &self.markers2 {
            Some(m2) => m2.bpm_locked(),
            None => None,
        }
    }

    /// Returns the flip performances from the `Serato Markers2` tag.
    pub fn flips(&self) -> (r: Option<Vec<Flip>>)
        ensures
            match self.markers2_slot() {
                Some(m2) => r matches Some(v) && v@.len() == crate::tag::markers2::m2_flips(
                    m2.content.markers@,
                ).len() && (forall|t: int|
                    0 <= t < v@.len() ==> crate::tag::generic::flip_like(
                        #[trigger] v@[t],
                        crate::tag::markers2::m2_flips(m2.content.markers@)[t],
                    )),
                None => r is None,
            },
    {
        match &self.markers2 {
            Some(m2) => Some(m2.flips()),
            None => None,
        }
    }

    /// Returns the autogain value from the `Serato Autotags` tag, as
    /// decimal text.
    pub fn auto_gain(&self) -> (r: Option<String>)
        ensures
            match self.autotags_slot() {
                Some(a) => r matches Some(s) && s@ == a.auto_gain@,
                None => r is None,
            },
    {
        match &self.autotags {
            Some(a) => Some(a.auto_gain.clone()),
            None => None,
        }
    }

    /// Returns the gain value from the `Serato Autotags` tag, as decimal
    /// text.
    pub fn gain_db(&self) -> (r: Option<String>)
        ensures
            match self.autotags_slot() {
                Some(a) => r matches Some(s) && s@ == a.gain_db@,
                None => r is None,
            },
    {
        match &self.autotags {
            Some(a) => Some(a.gain_db.clone()),
            None => None,
        }
    }

    /// Returns the beatgrid from the `Serato BeatGrid` tag: its
    /// non-terminal markers and the terminal marker.
    pub fn beatgrid(&self) -> (r: Option<
        (Vec<crate::tag::beatgrid::NonTerminalMarker>, crate::tag::beatgrid::TerminalMarker),
    >)
        ensures
            match self.beatgrid_slot() {
                Some(b) => r matches Some(v) && v.0@ == b.non_terminal_markers@ && v.1
                    == b.terminal_marker,
                None => r is None,
            },
    {
        match &self.beatgrid {
            Some(b) => Some(
                (
                    vstd::slice::slice_to_vec(b.non_terminal_markers.as_slice()),
                    b.terminal_marker,
                ),
            ),
            None => None,
        }
    }

    /// Returns the waveform overview data from the `Serato Overview` tag.
    pub fn overview_data(&self) -> (r: Option<&Vec<Vec<u8>>>)
        ensures
            match self.overview_slot() {
                Some(o) => r matches Some(v) && v == o.data,
                None => r is None,
            },
    {
        match &self.overview {
            Some(o) => Some(&o.data),
            None => None,
        }
    }
}

} // verus!
