//! HRTF angle lookup and per-buffer filter selection.
//!
//! The filter store maps angle ids to filter data; this module holds the
//! verified index over it: a table of (azimuth, elevation) pairs in
//! millidegrees with an exact one-nearest-neighbour query, and the
//! selection pass that moves every node's current filter id to the
//! previous slot before installing the freshly looked-up one.

use vstd::prelude::*;
use crate::geom::{lemma_square_bound, Vec3, Room};
use crate::ism::{SourceTree, SphericalCoordinates, tree_updated_for};

verus! {

/// Largest angle magnitude the table accepts, in millidegrees; wide
/// enough for wrapped azimuths and the out-of-band sentinel angle.
pub const ANGLE_LIMIT_MDEG: i64 = 1_000_000;

/// Angle id the sentinel entry carries; its angle lies outside the
/// physical range, so it is picked only when the table has no other
/// entry near the query.
pub const SENTINEL_FILTER_ID: usize = 0;

/// One row of the angle table.
#[derive(Debug, Clone, Copy, PartialEq, Eq, Structural)]
pub struct AngleEntry {
    pub azimuth_mdeg: i64,
    pub elevation_mdeg: i64,
    pub id: usize,
}

/// Squared angular distance between a query and a table row.
pub open spec fn angle_dist_sq(az: int, el: int, e: AngleEntry) -> int {
    (az - e.azimuth_mdeg) * (az - e.azimuth_mdeg) + (el - e.elevation_mdeg) * (el
        - e.elevation_mdeg)
}

/// Index of the first entry with minimal squared angular distance to
/// the query.
pub open spec fn nearest_index(entries: Seq<AngleEntry>, az: int, el: int) -> int
    decreases entries.len(),
{
    if entries.len() <= 1 {
        0
    } else {
        let r = nearest_index(entries.drop_last(), az, el);
        if angle_dist_sq(az, el, entries.last()) < angle_dist_sq(az, el, entries[r]) {
            entries.len() - 1
        } else {
            r
        }
    }
}

/// Filter id of the nearest table row.
pub open spec fn nearest_id(entries: Seq<AngleEntry>, az: int, el: int) -> usize {
    entries[nearest_index(entries, az, el)].id
}

/// The nearest index is in range and no row lies strictly closer.
pub proof fn lemma_nearest_is_minimal(entries: Seq<AngleEntry>, az: int, el: int)
    requires
        entries.len() >= 1,
    ensures
        0 <= nearest_index(entries, az, el) < entries.len(),
        forall|j: int|
            0 <= j < entries.len() ==> angle_dist_sq(az, el, #[trigger] entries[j]) >= angle_dist_sq(
                az,
                el,
                entries[nearest_index(entries, az, el)],
            ),
    decreases entries.len(),
{
    if entries.len() > 1 {
        lemma_nearest_is_minimal(entries.drop_last(), az, el);
        assert forall|j: int| 0 <= j < entries.len() implies angle_dist_sq(
            az,
            el,
            #[trigger] entries[j],
        ) >= angle_dist_sq(az, el, entries[nearest_index(entries, az, el)]) by {
            if j < entries.len() - 1 {
                assert(entries.drop_last()[j] == entries[j]);
            }
        };
    }
}

/// The angle index of the HRTF store: the angle of every stored filter,
/// with an exact nearest query.
#[derive(Debug, Clone, PartialEq, Eq)]
pub struct FilterTree {
    pub angles: Vec<AngleEntry>,
}

impl FilterTree {
    /// Every stored angle is within the accepted range.
    pub open spec fn wf(self) -> bool {
        forall|k: int|
            0 <= k < self.angles@.len() ==> {
                &&& -ANGLE_LIMIT_MDEG <= (#[trigger] self.angles@[k]).azimuth_mdeg
                    <= ANGLE_LIMIT_MDEG
                &&& -ANGLE_LIMIT_MDEG <= self.angles@[k].elevation_mdeg <= ANGLE_LIMIT_MDEG
            }
    }

    pub fn new() -> (r: FilterTree)
        ensures
            r.wf(),
            r.angles@.len() == 0,
    {
        FilterTree { angles: Vec::new() }
    }

    /// Insert one angle row.
    pub fn add(&mut self, azimuth_mdeg: i64, elevation_mdeg: i64, id: usize)
        requires
            old(self).wf(),
            -ANGLE_LIMIT_MDEG <= azimuth_mdeg <= ANGLE_LIMIT_MDEG,
            -ANGLE_LIMIT_MDEG <= elevation_mdeg <= ANGLE_LIMIT_MDEG,
        ensures
            final(self).wf(),
            final(self).angles@ == old(self).angles@.push(
                AngleEntry { azimuth_mdeg, elevation_mdeg, id },
            ),
    {
        self.angles.push(AngleEntry { azimuth_mdeg, elevation_mdeg, id });
    }

    /// One-nearest-neighbour query: the id of the first row with
    /// minimal squared angular distance to the query.  With the
    /// sentinel inserted the table is never empty, so the query is
    /// total.
    pub fn find_closest_stereo_filter_angle(&self, azimuth_mdeg: i64, elevation_mdeg: i64) -> (id: usize)
        requires
            self.wf(),
            self.angles@.len() >= 1,
            -ANGLE_LIMIT_MDEG <= azimuth_mdeg <= ANGLE_LIMIT_MDEG,
            -ANGLE_LIMIT_MDEG <= elevation_mdeg <= ANGLE_LIMIT_MDEG,
        ensures
            id == nearest_id(self.angles@, azimuth_mdeg as int, elevation_mdeg as int),
    {
        let n = self.angles.len();
        let mut best: usize = 0;
        let mut best_d: i64 = angle_dist_sq_of(azimuth_mdeg, elevation_mdeg, &self.angles[0]);
        proof {
            assert(self.angles@.subrange(0, 1).len() == 1);
            assert(self.angles@.subrange(0, 1)[0] == self.angles@[0]);
        }
        let mut i: usize = 1;
        while i < n
            invariant
                self.wf(),
                n == self.angles@.len(),
                1 <= i <= n,
                best < i,
                -ANGLE_LIMIT_MDEG <= azimuth_mdeg <= ANGLE_LIMIT_MDEG,
                -ANGLE_LIMIT_MDEG <= elevation_mdeg <= ANGLE_LIMIT_MDEG,
                best == nearest_index(
                    self.angles@.subrange(0, i as int),
                    azimuth_mdeg as int,
                    elevation_mdeg as int,
                ),
                best_d == angle_dist_sq(azimuth_mdeg as int, elevation_mdeg as int, self.angles@[best as int]),
            decreases n - i,
        {
            let d = angle_dist_sq_of(azimuth_mdeg, elevation_mdeg, &self.angles[i]);
            proof {
                let prefix = self.angles@.subrange(0, i as int);
                let next = self.angles@.subrange(0, i as int + 1);
                assert(next.drop_last() =~= prefix);
                assert(next.last() == self.angles@[i as int]);
                assert(next.len() == i + 1 > 1);
            }
            if d < best_d {
                best = i;
                best_d = d;
            }
            i = i + 1;
        }
        proof {
            assert(self.angles@.subrange(0, n as int) =~= self.angles@);
        }
        self.angles[best].id
    }
}

/// Executable squared angular distance.
fn angle_dist_sq_of(azimuth_mdeg: i64, elevation_mdeg: i64, e: &AngleEntry) -> (d: i64)
    requires
        -ANGLE_LIMIT_MDEG <= azimuth_mdeg <= ANGLE_LIMIT_MDEG,
        -ANGLE_LIMIT_MDEG <= elevation_mdeg <= ANGLE_LIMIT_MDEG,
        -ANGLE_LIMIT_MDEG <= e.azimuth_mdeg <= ANGLE_LIMIT_MDEG,
        -ANGLE_LIMIT_MDEG <= e.elevation_mdeg <= ANGLE_LIMIT_MDEG,
    ensures
        d == angle_dist_sq(azimuth_mdeg as int, elevation_mdeg as int, *e),
        d >= 0,
{
    let da = azimuth_mdeg - e.azimuth_mdeg;
    let de = elevation_mdeg - e.elevation_mdeg;
    proof {
        lemma_square_bound(da as int, 2 * ANGLE_LIMIT_MDEG as int);
        lemma_square_bound(de as int, 2 * ANGLE_LIMIT_MDEG as int);
    }
    da * da + de * de
}

/// The whole contract of a selection pass over one tree: every node's
/// current filter id moved into the previous slot, the nearest id for
/// the node's fresh angle made current, the angle stored, and the
/// geometry untouched.
pub open spec fn selection_applied(
    tree: SourceTree,
    prev: SourceTree,
    orientations: Seq<SphericalCoordinates>,
    entries: Seq<AngleEntry>,
) -> bool {
    &&& tree.wf()
    &&& tree.order == prev.order
    &&& tree.nodes@.len() == prev.nodes@.len()
    &&& forall|i: int|
        0 <= i < tree.nodes@.len() ==> {
            &&& (#[trigger] tree.nodes@[i]).prev_hrtf_id == prev.nodes@[i].curr_hrtf_id
            &&& tree.nodes@[i].curr_hrtf_id == nearest_id(
                entries,
                orientations[i].azimuth_mdeg as int,
                orientations[i].elevation_mdeg as int,
            )
            &&& tree.nodes@[i].listener_source_orientation == orientations[i]
        }
    &&& forall|i: int|
        0 <= i < tree.nodes@.len() ==> {
            &&& (#[trigger] tree.nodes@[i]).position == prev.nodes@[i].position
            &&& tree.nodes@[i].dist == prev.nodes@[i].dist
            &&& tree.nodes@[i].remaining_dist == prev.nodes@[i].remaining_dist
            &&& tree.nodes@[i].reflector == prev.nodes@[i].reflector
        }
}

/// Per-buffer HRTF selection: for every tree node, the current filter
/// id moves into the previous slot and the nearest id for the node's
/// fresh listener-relative angle becomes current; the node keeps that
/// angle.  Geometry is untouched.
pub fn apply_hrtf_selection(
    tree: &mut SourceTree,
    orientations: &Vec<SphericalCoordinates>,
    filter_tree: &FilterTree,
)
    requires
        old(tree).wf(),
        filter_tree.wf(),
        filter_tree.angles@.len() >= 1,
        orientations@.len() == old(tree).nodes@.len(),
        forall|k: int|
            0 <= k < orientations@.len() ==> {
                &&& -ANGLE_LIMIT_MDEG <= (#[trigger] orientations@[k]).azimuth_mdeg
                    <= ANGLE_LIMIT_MDEG
                &&& -ANGLE_LIMIT_MDEG <= orientations@[k].elevation_mdeg <= ANGLE_LIMIT_MDEG
            },
    ensures
        selection_applied(*final(tree), *old(tree), orientations@, filter_tree.angles@),
{
    let ghost orig = tree.nodes@;
    let n = tree.nodes.len();
    let mut i: usize = 0;
    while i < n
        invariant
            tree.wf(),
            filter_tree.wf(),
            filter_tree.angles@.len() >= 1,
            tree.nodes@.len() == n == orig.len(),
            tree.order == old(tree).order,
            orientations@.len() == n,
            0 <= i <= n,
            forall|k: int|
                0 <= k < n ==> {
                    &&& -ANGLE_LIMIT_MDEG <= (#[trigger] orientations@[k]).azimuth_mdeg
                        <= ANGLE_LIMIT_MDEG
                    &&& -ANGLE_LIMIT_MDEG <= orientations@[k].elevation_mdeg <= ANGLE_LIMIT_MDEG
                },
            forall|j: int|
                0 <= j < i ==> {
                    &&& (#[trigger] tree.nodes@[j]).prev_hrtf_id == orig[j].curr_hrtf_id
                    &&& tree.nodes@[j].curr_hrtf_id == nearest_id(
                        filter_tree.angles@,
                        orientations@[j].azimuth_mdeg as int,
                        orientations@[j].elevation_mdeg as int,
                    )
                    &&& tree.nodes@[j].listener_source_orientation == orientations@[j]
                },
            forall|j: int| i <= j < n ==> tree.nodes@[j] == orig[j],
            forall|j: int|
                0 <= j < i ==> {
                    &&& (#[trigger] tree.nodes@[j]).position == orig[j].position
                    &&& tree.nodes@[j].dist == orig[j].dist
                    &&& tree.nodes@[j].remaining_dist == orig[j].remaining_dist
                    &&& tree.nodes@[j].reflector == orig[j].reflector
                },
        decreases n - i,
    {
        let keep = tree.nodes[i];
        let o = orientations[i];
        let id = filter_tree.find_closest_stereo_filter_angle(o.azimuth_mdeg, o.elevation_mdeg);
        tree.nodes.set(
            i,
            crate::ism::Source {
                prev_hrtf_id: keep.curr_hrtf_id,
                curr_hrtf_id: id,
                listener_source_orientation: o,
                ..keep
            },
        );
        i = i + 1;
    }
}

/// Hand the whole tree the filter ids of the first snapshot: the
/// previous slot is made equal to the current one, so the first audible
/// buffer crossfades between two copies of the same filter and no jump
/// is heard.
pub fn sync_prev_to_curr(tree: &mut SourceTree)
    requires
        old(tree).wf(),
    ensures
        final(tree).wf(),
        final(tree).order == old(tree).order,
        final(tree).nodes@.len() == old(tree).nodes@.len(),
        forall|i: int|
            0 <= i < final(tree).nodes@.len() ==> {
                &&& (#[trigger] final(tree).nodes@[i]).prev_hrtf_id == old(
                    tree,
                ).nodes@[i].curr_hrtf_id
                &&& final(tree).nodes@[i].curr_hrtf_id == old(tree).nodes@[i].curr_hrtf_id
                &&& final(tree).nodes@[i].position == old(tree).nodes@[i].position
                &&& final(tree).nodes@[i].dist == old(tree).nodes@[i].dist
                &&& final(tree).nodes@[i].remaining_dist == old(tree).nodes@[i].remaining_dist
                &&& final(tree).nodes@[i].reflector == old(tree).nodes@[i].reflector
                &&& final(tree).nodes@[i].listener_source_orientation == old(
                    tree,
                ).nodes@[i].listener_source_orientation
            },
{
    let ghost orig = tree.nodes@;
    let n = tree.nodes.len();
    let mut i: usize = 0;
    while i < n
        invariant
            tree.wf(),
            tree.nodes@.len() == n == orig.len(),
            tree.order == old(tree).order,
            0 <= i <= n,
            forall|j: int|
                0 <= j < i ==> #[trigger] tree.nodes@[j] == (crate::ism::Source {
                    prev_hrtf_id: orig[j].curr_hrtf_id,
                    ..orig[j]
                }),
            forall|j: int| i <= j < n ==> tree.nodes@[j] == orig[j],
        decreases n - i,
    {
        let keep = tree.nodes[i];
        tree.nodes.set(
            i,
            crate::ism::Source { prev_hrtf_id: keep.curr_hrtf_id, ..keep },
        );
        i = i + 1;
    }
}

/// Selecting with the same angles twice is a fixpoint: once every
/// node's current id already answers the same queries, another pass
/// keeps every current id and parks the same id in the previous slot.
pub proof fn lemma_selection_fixpoint(
    before: Seq<crate::ism::Source>,
    after: Seq<crate::ism::Source>,
    orientations: Seq<SphericalCoordinates>,
    entries: Seq<AngleEntry>,
)
    requires
        after.len() == before.len(),
        orientations.len() == before.len(),
        forall|i: int|
            0 <= i < before.len() ==> (#[trigger] before[i]).curr_hrtf_id == nearest_id(
                entries,
                orientations[i].azimuth_mdeg as int,
                orientations[i].elevation_mdeg as int,
            ),
        forall|i: int|
            0 <= i < after.len() ==> {
                &&& (#[trigger] after[i]).prev_hrtf_id == before[i].curr_hrtf_id
                &&& after[i].curr_hrtf_id == nearest_id(
                    entries,
                    orientations[i].azimuth_mdeg as int,
                    orientations[i].elevation_mdeg as int,
                )
            },
    ensures
        forall|i: int|
            0 <= i < after.len() ==> (#[trigger] after[i]).curr_hrtf_id == before[i].curr_hrtf_id
                && after[i].prev_hrtf_id == after[i].curr_hrtf_id,
{
}

/// HRTF selection after an update, as one law over the whole apply: a
/// geometry pass keeps every filter id, so once the selection pass has
/// run on the updated tree, every node's previous id is its current id
/// from before the update and its current id answers the nearest query
/// for its fresh listener-relative angle.
pub proof fn lemma_hrtf_selection_after_update(
    before: SourceTree,
    updated: SourceTree,
    selected: SourceTree,
    source_position: Vec3,
    room: Room,
    listener_pos: Vec3,
    orientations: Seq<SphericalCoordinates>,
    entries: Seq<AngleEntry>,
)
    requires
        tree_updated_for(updated, before, source_position, room, listener_pos),
        selection_applied(selected, updated, orientations, entries),
    ensures
        forall|i: int|
            0 <= i < selected.nodes@.len() ==> {
                &&& (#[trigger] selected.nodes@[i]).prev_hrtf_id == before.nodes@[i].curr_hrtf_id
                &&& selected.nodes@[i].curr_hrtf_id == nearest_id(
                    entries,
                    orientations[i].azimuth_mdeg as int,
                    orientations[i].elevation_mdeg as int,
                )
            },
{
}

} // verus!
