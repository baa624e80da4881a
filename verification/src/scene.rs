//! Canonical scene snapshots and their application to the source trees.
//!
//! The ingest side decodes whatever arrives on the wire into a
//! `Snapshot` — plain integer poses — and the renderer applies it here:
//! one geometry pass over every real source's image tree.

use vstd::prelude::*;
use crate::geom::{Vec3, Quat, Room, COORD_LIMIT_MM, is_rotated, rotate_vector, quat_conjugate, quat_conj_spec};
use crate::ism::{Listener, SourceTrees, SourceTree, update_source_tree, tree_updated_for};

verus! {

/// One rigid pose of the scene: a position in millimetres and a unit
/// orientation quaternion in Q14 fixed point.
#[derive(Debug, Clone, Copy, PartialEq, Eq, Structural)]
pub struct Transform {
    pub position: Vec3,
    pub orientation: Quat,
}

impl Transform {
    pub open spec fn wf(self) -> bool {
        &&& self.position.bounded(COORD_LIMIT_MM as int)
        &&& self.orientation.wf()
    }
}

/// An immutable scene state: room size, listener pose and the ordered
/// source poses, published atomically by the ingest side.
#[derive(Debug, Clone, PartialEq, Eq)]
pub struct Snapshot {
    pub room: Room,
    pub listener: Transform,
    pub sources: Vec<Transform>,
}

impl Snapshot {
    pub open spec fn wf(self) -> bool {
        &&& self.room.wf()
        &&& self.listener.wf()
        &&& forall|k: int| 0 <= k < self.sources@.len() ==> (#[trigger] self.sources@[k]).wf()
    }
}

/// A mutable borrow of one tree of the forest.
fn tree_at_mut(trees: &mut Vec<SourceTree>, i: usize) -> (t: &mut SourceTree)
    requires
        i < old(trees)@.len(),
    ensures
        *t == old(trees)@[i as int],
        final(trees)@ == old(trees)@.update(i as int, *final(t)),
{
    &mut trees[i]
}

/// Apply one snapshot to the forest: every tree gets a geometry pass
/// against its own source pose and the new listener pose and room.
pub fn update_scene(scene: &Snapshot, source_trees: &mut SourceTrees)
    requires
        old(source_trees).wf(),
        scene.wf(),
        scene.sources@.len() == old(source_trees).trees@.len(),
    ensures
        final(source_trees).wf(),
        final(source_trees).trees@.len() == old(source_trees).trees@.len(),
        forall|t: int|
            0 <= t < final(source_trees).trees@.len() ==> tree_updated_for(
                #[trigger] final(source_trees).trees@[t],
                old(source_trees).trees@[t],
                scene.sources@[t].position,
                scene.room,
                scene.listener.position,
            ),
{
    let listener = Listener { position: scene.listener.position, orientation: scene.listener.orientation };
    let n = source_trees.trees.len();
    let ghost orig = source_trees.trees@;
    let mut i: usize = 0;
    while i < n
        invariant
            scene.wf(),
            scene.sources@.len() == n,
            source_trees.trees@.len() == n == orig.len(),
            listener.position == scene.listener.position,
            forall|k: int| 0 <= k < n ==> (#[trigger] orig[k]).wf(),
            forall|k: int| 0 <= k < n ==> (#[trigger] orig[k]).order == orig[0].order,
            0 <= i <= n,
            forall|t: int|
                0 <= t < i ==> tree_updated_for(
                    #[trigger] source_trees.trees@[t],
                    orig[t],
                    scene.sources@[t].position,
                    scene.room,
                    scene.listener.position,
                ),
            forall|t: int| i <= t < n ==> source_trees.trees@[t] == orig[t],
        decreases n - i,
    {
        let src_pos = scene.sources[i].position;
        proof {
            assert(orig[i as int].wf());
            assert(scene.sources@[i as int].wf());
        }
        let tree = tree_at_mut(&mut source_trees.trees, i);
        update_source_tree(tree, src_pos, &scene.room, &listener);
        i = i + 1;
    }
    proof {
        assert forall|t: int| 0 <= t < n implies (#[trigger] source_trees.trees@[t]).wf()
            && source_trees.trees@[t].order == source_trees.trees@[0].order by {
            assert(tree_updated_for(
                source_trees.trees@[t],
                orig[t],
                scene.sources@[t].position,
                scene.room,
                scene.listener.position,
            ));
            assert(tree_updated_for(
                source_trees.trees@[0],
                orig[0],
                scene.sources@[0].position,
                scene.room,
                scene.listener.position,
            ));
        };
    }
}

impl SourceTrees {
    /// Method form of `update_scene`: apply one snapshot to this
    /// forest.
    pub fn update_from_scene(&mut self, scene: &Snapshot)
        requires
            old(self).wf(),
            scene.wf(),
            scene.sources@.len() == old(self).trees@.len(),
        ensures
            final(self).wf(),
            final(self).trees@.len() == old(self).trees@.len(),
            forall|t: int|
                0 <= t < final(self).trees@.len() ==> tree_updated_for(
                    #[trigger] final(self).trees@[t],
                    old(self).trees@[t],
                    scene.sources@[t].position,
                    scene.room,
                    scene.listener.position,
                ),
    {
        update_scene(scene, self);
    }
}

/// Relative position of `b` seen from `a`, in millimetres.
pub open spec fn relative_position(a: Vec3, b: Vec3) -> Vec3 {
    Vec3 { x: (b.x - a.x) as i64, y: (b.y - a.y) as i64, z: (b.z - a.z) as i64 }
}

/// Listener-frame source directions: for every source, its position
/// relative to the listener, rotated into the listener's local frame by
/// the conjugate (inverse) of the listener's unit orientation.  The
/// trigonometric step from these vectors to azimuth and elevation
/// angles is floating point and happens outside.
pub fn update_scene_parameters(scene_data: &Snapshot) -> (r: Vec<Vec3>)
    requires
        scene_data.wf(),
    ensures
        r@.len() == scene_data.sources@.len(),
        forall|k: int|
            0 <= k < r@.len() ==> is_rotated(
                quat_conj_spec(scene_data.listener.orientation),
                relative_position(
                    scene_data.listener.position,
                    scene_data.sources@[k].position,
                ),
                #[trigger] r@[k],
            ),
{
    let inv = quat_conjugate(&scene_data.listener.orientation);
    let n = scene_data.sources.len();
    let mut out: Vec<Vec3> = Vec::new();
    let mut k: usize = 0;
    while k < n
        invariant
            scene_data.wf(),
            n == scene_data.sources@.len(),
            inv.wf(),
            inv.w == scene_data.listener.orientation.w,
            inv.x == -scene_data.listener.orientation.x,
            inv.y == -scene_data.listener.orientation.y,
            inv.z == -scene_data.listener.orientation.z,
            out@.len() == k <= n,
            forall|j: int|
                0 <= j < k ==> is_rotated(
                    inv,
                    relative_position(
                        scene_data.listener.position,
                        scene_data.sources@[j].position,
                    ),
                    #[trigger] out@[j],
                ),
        decreases n - k,
    {
        proof {
            assert(scene_data.sources@[k as int].wf());
        }
        let sp = scene_data.sources[k].position;
        let lp = scene_data.listener.position;
        let rel = Vec3 { x: sp.x - lp.x, y: sp.y - lp.y, z: sp.z - lp.z };
        out.push(rotate_vector(&inv, &rel));
        k = k + 1;
    }
    proof {
        assert(inv == quat_conj_spec(scene_data.listener.orientation));
    }
    out
}

} // verus!
