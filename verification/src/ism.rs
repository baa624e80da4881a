//! Image-source model: the reflector tags and the fixed-shape,
//! level-ordered tree of image sources kept per real source.
//!
//! The tree shape is fixed by the reflection order alone: level 0 holds
//! the real source, level 1 one image per boundary, and every deeper
//! level five images per parent (a boundary is never repeated
//! immediately).  Nodes are stored in one flat, level-ordered array and
//! parents are implicit in the index arithmetic.

use vstd::prelude::*;
use vstd::arithmetic::div_mod::lemma_fundamental_div_mod_converse_div;
use crate::geom::{Vec3, Quat, Room, is_mirror_of, calc_ism_position, calc_distance, dist_spec, COORD_LIMIT_MM};

verus! {

/// Highest reflection order the fixed index tables cover.
pub const MAX_ISM_ORDER: usize = 3;

/// Index ranges `[start, end)` of the tree levels in the flat,
/// level-ordered node array: 1 root, then 6, 30 and 150 images.
pub const N_IS_INDEX_RANGES: [(usize, usize); 4] = [(0, 1), (1, 7), (7, 37), (37, 187)];

/// Reflector tag of an (image) source.
/// `No` marks a real sound source; the other six name the shoebox
/// boundary the parent was mirrored across.
#[derive(Debug, Clone, Copy, PartialEq, Eq, Structural)]
pub enum Reflected {
    X0,
    X1,
    Y0,
    Y1,
    Z0,
    Z1,
    No,
}

impl Reflected {
    /// The six boundaries, in the fixed order children are created in.
    pub const VALUES: [Reflected; 6] = [
        Reflected::X0,
        Reflected::X1,
        Reflected::Y0,
        Reflected::Y1,
        Reflected::Z0,
        Reflected::Z1,
    ];
}

/// Position of a boundary in the fixed creation order; `No` sorts last.
pub open spec fn reflector_ordinal(b: Reflected) -> int {
    match b {
        Reflected::X0 => 0,
        Reflected::X1 => 1,
        Reflected::Y0 => 2,
        Reflected::Y1 => 3,
        Reflected::Z0 => 4,
        Reflected::Z1 => 5,
        Reflected::No => 6,
    }
}

/// The boundary at position `k` of the fixed creation order.
pub open spec fn boundary_value(k: int) -> Reflected {
    if k == 0 {
        Reflected::X0
    } else if k == 1 {
        Reflected::X1
    } else if k == 2 {
        Reflected::Y0
    } else if k == 3 {
        Reflected::Y1
    } else if k == 4 {
        Reflected::Z0
    } else {
        Reflected::Z1
    }
}

/// Reflector of the `j`-th child of a node tagged `parent`: the `j`-th
/// boundary once the parent's own boundary is left out.
#[verifier::opaque]
pub open spec fn child_reflector(parent: Reflected, j: int) -> Reflected {
    if parent == Reflected::No {
        boundary_value(j)
    } else if j < reflector_ordinal(parent) {
        boundary_value(j)
    } else {
        boundary_value(j + 1)
    }
}

/// Tree level a flat index belongs to.
pub open spec fn level_of(i: int) -> int {
    if i == 0 {
        0
    } else if i < 7 {
        1
    } else if i < 37 {
        2
    } else {
        3
    }
}

/// Flat index of the parent of node `i`.
pub open spec fn parent_index(i: int) -> int {
    if i < 7 {
        0
    } else if i < 37 {
        1 + (i - 7) / 5
    } else {
        7 + (i - 37) / 5
    }
}

/// Position of node `i` among the children of its parent.
pub open spec fn ordinal_at(i: int) -> int {
    if i < 7 {
        i - 1
    } else if i < 37 {
        (i - 7) % 5
    } else {
        (i - 37) % 5
    }
}

/// Reflector tag the fixed layout assigns to flat index `i`.
#[verifier::opaque]
pub open spec fn reflector_at(i: int) -> Reflected {
    if i == 0 {
        Reflected::No
    } else if i < 7 {
        boundary_value(i - 1)
    } else if i < 37 {
        child_reflector(boundary_value((i - 7) / 5), (i - 7) % 5)
    } else {
        let p = 7 + (i - 37) / 5;
        child_reflector(child_reflector(boundary_value((p - 7) / 5), (p - 7) % 5), (i - 37) % 5)
    }
}

/// Number of nodes of a tree of the given reflection order.
pub open spec fn total_nodes(order: int) -> int {
    if order <= 0 {
        1
    } else if order == 1 {
        7
    } else if order == 2 {
        37
    } else {
        187
    }
}

/// A node never carries its parent's reflector, and every non-root
/// carries a boundary.
pub proof fn lemma_child_reflector_fresh(parent: Reflected, j: int)
    requires
        0 <= j,
        parent == Reflected::No ==> j < 6,
        parent != Reflected::No ==> j < 5,
    ensures
        child_reflector(parent, j) != parent,
        child_reflector(parent, j) != Reflected::No,
{
    reveal(child_reflector);
}

/// The layout's reflector at `i` is the `ordinal_at(i)`-th child
/// reflector of the layout's reflector at the parent of `i`, and the
/// parent stands one level up, strictly earlier in the array.
pub proof fn lemma_layout(i: int)
    requires
        1 <= i < 187,
    ensures
        reflector_at(i) == child_reflector(reflector_at(parent_index(i)), ordinal_at(i)),
        0 <= parent_index(i) < i,
        level_of(parent_index(i)) == level_of(i) - 1,
        parent_index(i) < 37,
        i < 7 ==> 0 <= ordinal_at(i) < 6,
        i >= 7 ==> 0 <= ordinal_at(i) < 5,
        reflector_at(i) != Reflected::No,
        i >= 7 ==> reflector_at(parent_index(i)) != Reflected::No,
    decreases i,
{
    reveal(child_reflector);
    reveal(reflector_at);
    if i < 7 {
        assert(reflector_at(0) == Reflected::No);
    } else if i < 37 {
        let q = (i - 7) / 5;
        let r = (i - 7) % 5;
        assert(0 <= q <= 5 && 0 <= r < 5 && i - 7 == 5 * q + r) by {
            lemma_fundamental_div_mod_converse_div(i - 7, 5, (i - 7) / 5, (i - 7) % 5);
        };
        assert(parent_index(i) == 1 + q);
        assert(reflector_at(1 + q) == boundary_value(q));
        lemma_child_reflector_fresh(boundary_value(q), r);
    } else {
        let q = (i - 37) / 5;
        let r = (i - 37) % 5;
        assert(0 <= q <= 29 && 0 <= r < 5 && i - 37 == 5 * q + r) by {
            lemma_fundamental_div_mod_converse_div(i - 37, 5, (i - 37) / 5, (i - 37) % 5);
        };
        let p = 7 + q;
        assert(parent_index(i) == p);
        lemma_layout(p);
        assert(reflector_at(p) == child_reflector(boundary_value((p - 7) / 5), (p - 7) % 5));
        lemma_child_reflector_fresh(reflector_at(p), r);
    }
}

/// The root of the layout is the real source.
pub proof fn lemma_reflector_at_root()
    ensures
        reflector_at(0) == Reflected::No,
{
    reveal(reflector_at);
}

/// Executable parent index.
pub fn parent_index_of(i: usize) -> (p: usize)
    requires
        1 <= i < 187,
    ensures
        p == parent_index(i as int),
        p < i,
        p < 37,
{
    proof {
        lemma_layout(i as int);
    }
    if i < 7 {
        0
    } else if i < 37 {
        1 + (i - 7) / 5
    } else {
        7 + (i - 37) / 5
    }
}

/// Executable ordinal of a node among its parent's children.
pub fn ordinal_of(i: usize) -> (j: usize)
    requires
        1 <= i < 187,
    ensures
        j == ordinal_at(i as int),
        i < 7 ==> j < 6,
        i >= 7 ==> j < 5,
{
    proof {
        lemma_layout(i as int);
    }
    if i < 7 {
        i - 1
    } else if i < 37 {
        (i - 7) % 5
    } else {
        (i - 37) % 5
    }
}

/// Executable child-reflector choice.
pub fn nth_child_reflector(parent: Reflected, j: usize) -> (b: Reflected)
    requires
        parent == Reflected::No ==> j < 6,
        parent != Reflected::No ==> j < 5,
    ensures
        b == child_reflector(parent, j as int),
{
    proof {
        reveal(child_reflector);
    }
    let skip = match parent {
        Reflected::X0 => 0usize,
        Reflected::X1 => 1,
        Reflected::Y0 => 2,
        Reflected::Y1 => 3,
        Reflected::Z0 => 4,
        Reflected::Z1 => 5,
        Reflected::No => 6,
    };
    let k = if j < skip {
        j
    } else {
        j + 1
    };
    match k {
        0 => Reflected::X0,
        1 => Reflected::X1,
        2 => Reflected::Y0,
        3 => Reflected::Y1,
        4 => Reflected::Z0,
        _ => Reflected::Z1,
    }
}

/// Executable node count of a tree of the given order.
pub fn total_nodes_of(order: usize) -> (n: usize)
    requires
        order <= MAX_ISM_ORDER,
    ensures
        n == total_nodes(order as int),
        1 <= n <= 187,
{
    if order == 0 {
        1
    } else if order == 1 {
        7
    } else if order == 2 {
        37
    } else {
        187
    }
}

/// An image-source-order-zero tree holds exactly the real source.
pub proof fn lemma_order_zero_single_node()
    ensures
        total_nodes(0) == 1,
{
}

/// The fixed level table is exactly the combinatorial count: a tree of
/// order `k` holds the real source plus one image for every mirror
/// chain of up to `k` of the six boundaries with no immediate repeat.
pub proof fn lemma_total_nodes_counts_images(order: int)
    requires
        0 <= order <= MAX_ISM_ORDER,
    ensures
        total_nodes(order) == 1 + is_per_model_spec(order as nat, 6),
{
    let o1 = is_per_order_spec(1, 6);
    let o2 = is_per_order_spec(2, 6);
    let o3 = is_per_order_spec(3, 6);
    assert(o1 == 6);
    assert(o2 == o1 * ((6 - 1) as nat));
    assert(o2 == 30) by (nonlinear_arith)
        requires
            o1 == 6 && o2 == o1 * ((6 - 1) as nat),
    ;
    assert(o3 == o2 * ((6 - 1) as nat));
    assert(o3 == 150) by (nonlinear_arith)
        requires
            o2 == 30 && o3 == o2 * ((6 - 1) as nat),
    ;
    assert(is_per_model_spec(0, 6) == 0);
    assert(is_per_model_spec(1, 6) == 6);
    assert(is_per_model_spec(2, 6) == 36);
    assert(is_per_model_spec(3, 6) == 186);
}

/// Number of image sources of exactly one order:
/// `n_surfaces * (n_surfaces - 1) ^ (order - 1)`.
pub open spec fn is_per_order_spec(order: nat, n_surfaces: nat) -> nat
    decreases order,
{
    if order <= 1 {
        n_surfaces
    } else {
        is_per_order_spec((order - 1) as nat, n_surfaces) * ((n_surfaces - 1) as nat)
    }
}

/// Number of image sources of a whole model, all orders from 1 to
/// `maxorder` together.
pub open spec fn is_per_model_spec(maxorder: nat, n_surfaces: nat) -> nat
    decreases maxorder,
{
    if maxorder == 0 {
        0
    } else {
        is_per_model_spec((maxorder - 1) as nat, n_surfaces) + is_per_order_spec(
            maxorder,
            n_surfaces,
        )
    }
}

/// Image sources of exactly one reflection order.
fn is_per_order(order: usize, n_surfaces: usize) -> (n: usize)
    requires
        1 <= order,
        1 <= n_surfaces,
        is_per_order_spec(order as nat, n_surfaces as nat) <= usize::MAX,
    ensures
        n == is_per_order_spec(order as nat, n_surfaces as nat),
{
    let mut n: usize = n_surfaces;
    let mut k: usize = 1;
    while k < order
        invariant
            1 <= k <= order,
            n == is_per_order_spec(k as nat, n_surfaces as nat),
            1 <= n_surfaces,
            is_per_order_spec(order as nat, n_surfaces as nat) <= usize::MAX,
        decreases order - k,
    {
        proof {
            assert(is_per_order_spec((k + 1) as nat, n_surfaces as nat) == is_per_order_spec(
                k as nat,
                n_surfaces as nat,
            ) * ((n_surfaces - 1) as nat));
            if n_surfaces >= 2 {
                lemma_is_per_order_monotone(k as nat + 1, order as nat, n_surfaces as nat);
            } else {
                assert(n * ((n_surfaces - 1) as nat) == 0) by (nonlinear_arith)
                    requires
                        n_surfaces == 1,
                ;
            }
        }
        n = n * (n_surfaces - 1);
        k = k + 1;
    }
    n
}

/// With at least two surfaces the per-order image counts never shrink
/// as the order grows.
proof fn lemma_is_per_order_monotone(a: nat, b: nat, n_surfaces: nat)
    requires
        1 <= a <= b,
        2 <= n_surfaces,
    ensures
        is_per_order_spec(a, n_surfaces) <= is_per_order_spec(b, n_surfaces),
    decreases b,
{
    if a < b {
        lemma_is_per_order_monotone(a, (b - 1) as nat, n_surfaces);
        let prev = is_per_order_spec((b - 1) as nat, n_surfaces);
        assert(is_per_order_spec(b, n_surfaces) == prev * ((n_surfaces - 1) as nat));
        assert(prev <= prev * ((n_surfaces - 1) as nat)) by (nonlinear_arith)
            requires
                n_surfaces >= 2,
                prev >= 0,
        ;
    }
}

/// Total number of image sources for a model of `maxorder` reflections
/// off `n_surfaces` boundaries.
pub fn is_per_model(maxorder: usize, n_surfaces: usize) -> (n: usize)
    requires
        1 <= n_surfaces,
        maxorder < usize::MAX,
        is_per_model_spec(maxorder as nat, n_surfaces as nat) <= usize::MAX,
    ensures
        n == is_per_model_spec(maxorder as nat, n_surfaces as nat),
{
    let mut n_ism: usize = 0;
    let mut i: usize = 1;
    while i <= maxorder
        invariant
            1 <= i <= maxorder + 1,
            n_ism == is_per_model_spec((i - 1) as nat, n_surfaces as nat),
            1 <= n_surfaces,
            maxorder < usize::MAX,
            is_per_model_spec(maxorder as nat, n_surfaces as nat) <= usize::MAX,
        decreases maxorder + 1 - i,
    {
        proof {
            lemma_is_per_model_monotone(i as nat, maxorder as nat, n_surfaces as nat);
            assert(is_per_model_spec(i as nat, n_surfaces as nat) == is_per_model_spec(
                (i - 1) as nat,
                n_surfaces as nat,
            ) + is_per_order_spec(i as nat, n_surfaces as nat));
        }
        n_ism = n_ism + is_per_order(i, n_surfaces);
        i = i + 1;
    }
    n_ism
}

/// A model of a lower order counts no more image sources than one of a
/// higher order.
proof fn lemma_is_per_model_monotone(a: nat, b: nat, n_surfaces: nat)
    requires
        a <= b,
    ensures
        is_per_model_spec(a, n_surfaces) <= is_per_model_spec(b, n_surfaces),
    decreases b,
{
    if a < b {
        lemma_is_per_model_monotone(a, (b - 1) as nat, n_surfaces);
    }
}

/// Listener-relative direction of a source, in millidegrees.
#[derive(Debug, Clone, Copy, PartialEq, Eq, Structural)]
pub struct SphericalCoordinates {
    pub azimuth_mdeg: i64,
    pub elevation_mdeg: i64,
}

impl SphericalCoordinates {
    pub fn new(azimuth_mdeg: i64, elevation_mdeg: i64) -> (r: SphericalCoordinates)
        ensures
            r == (SphericalCoordinates { azimuth_mdeg, elevation_mdeg }),
    {
        SphericalCoordinates { azimuth_mdeg, elevation_mdeg }
    }
}

/// The listener pose.
#[derive(Debug, Clone, Copy, PartialEq, Eq, Structural)]
pub struct Listener {
    pub position: Vec3,
    pub orientation: Quat,
}

impl Listener {
    pub fn get_pos(&self) -> (p: Vec3)
        ensures
            p == self.position,
    {
        self.position
    }
}

/// One node of an image-source tree: a real source at the root, an
/// image source everywhere else.
#[derive(Debug, Clone, Copy, PartialEq, Eq, Structural)]
pub struct Source {
    pub position: Vec3,
    pub reflector: Reflected,
    pub dist: i64,
    pub remaining_dist: i64,
    pub curr_hrtf_id: usize,
    pub prev_hrtf_id: usize,
    pub listener_source_orientation: SphericalCoordinates,
}

impl Source {
    /// Move a real source and refresh its distance to the listener.
    pub fn update_position(&mut self, position: Vec3, listener: &Listener)
        requires
            position.bounded(10 * COORD_LIMIT_MM as int),
            listener.position.bounded(10 * COORD_LIMIT_MM as int),
        ensures
            final(self).position == position,
            final(self).dist == dist_spec(position, listener.position),
            final(self).reflector == old(self).reflector,
            final(self).remaining_dist == old(self).remaining_dist,
            final(self).curr_hrtf_id == old(self).curr_hrtf_id,
            final(self).prev_hrtf_id == old(self).prev_hrtf_id,
            final(self).listener_source_orientation == old(self).listener_source_orientation,
    {
        self.position = position;
        self.dist = calc_distance(&self.position, &listener.position);
    }
}

/// One image source made by reflecting `s` off boundary `b`: the
/// mirrored position under the child's own reflector tag, its payload
/// awaiting the next geometry pass.
pub fn create_ism(s: &Source, r: &Room, b: &Reflected) -> (img: Source)
    requires
        *b != Reflected::No,
        r.wf(),
        s.position.bounded(8 * COORD_LIMIT_MM as int),
    ensures
        is_mirror_of(img.position, s.position, *r, *b),
        img.reflector == *b,
        img.dist == 0,
        img.remaining_dist == 0,
        img.curr_hrtf_id == 0,
        img.prev_hrtf_id == 0,
{
    Source {
        position: calc_ism_position(&s.position, r, b),
        reflector: *b,
        dist: 0,
        remaining_dist: 0,
        curr_hrtf_id: 0,
        prev_hrtf_id: 0,
        listener_source_orientation: SphericalCoordinates { azimuth_mdeg: 0, elevation_mdeg: 0 },
    }
}

/// The image-source tree of one real source: a flat, level-ordered node
/// array whose shape is fixed by the reflection order.
#[derive(Debug, Clone, PartialEq, Eq)]
pub struct SourceTree {
    pub nodes: Vec<Source>,
    pub order: usize,
}

impl SourceTree {
    /// The fixed layout: node count determined by the order, the root a
    /// real source, every other node tagged with the boundary the
    /// layout assigns to its index.
    pub open spec fn wf(self) -> bool {
        &&& self.order <= MAX_ISM_ORDER
        &&& self.nodes@.len() == total_nodes(self.order as int)
        &&& forall|i: int|
            0 <= i < self.nodes@.len() ==> (#[trigger] self.nodes@[i]).reflector == reflector_at(i)
    }
}

/// Node `i` agrees with the geometry of the given room, listener and
/// parent chain: its position is its parent's position mirrored across
/// its own boundary, its distance is the Euclidean distance from its
/// position to the listener, and its remaining distance is its own
/// segment, floored at zero.
pub open spec fn node_geometry_fresh(nodes: Seq<Source>, i: int, room: Room, listener_pos: Vec3) -> bool {
    &&& nodes[i].dist == dist_spec(nodes[i].position, listener_pos)
    &&& if i == 0 {
        nodes[0].remaining_dist == nodes[0].dist
    } else {
        &&& is_mirror_of(nodes[i].position, nodes[parent_index(i)].position, room, reflector_at(i))
        &&& nodes[i].remaining_dist == if nodes[i].dist >= nodes[parent_index(i)].dist {
            nodes[i].dist - nodes[parent_index(i)].dist
        } else {
            0
        }
    }
}

/// Per-level coordinate bound: each reflection can push a coordinate
/// out by at most two room extents.
pub open spec fn level_bounded(nodes: Seq<Source>, i: int) -> bool {
    nodes[i].position.bounded((2 * level_of(i) + 1) * COORD_LIMIT_MM as int)
}

/// The whole contract of a geometry pass: `tree` is `prev` with its
/// root moved to `source_position` and every node's geometry
/// recomputed against `room` and the listener position; layout, HRTF
/// ids and stored orientations are those of `prev`.
pub open spec fn tree_updated_for(
    tree: SourceTree,
    prev: SourceTree,
    source_position: Vec3,
    room: Room,
    listener_pos: Vec3,
) -> bool {
    &&& tree.wf()
    &&& tree.order == prev.order
    &&& tree.nodes@.len() == prev.nodes@.len()
    &&& tree.nodes@[0].position == source_position
    &&& forall|i: int|
        0 <= i < tree.nodes@.len() ==> node_geometry_fresh(tree.nodes@, i, room, listener_pos)
    &&& forall|i: int| 0 <= i < tree.nodes@.len() ==> level_bounded(tree.nodes@, i)
    &&& forall|i: int|
        0 <= i < tree.nodes@.len() ==> {
            &&& (#[trigger] tree.nodes@[i]).curr_hrtf_id == prev.nodes@[i].curr_hrtf_id
            &&& tree.nodes@[i].prev_hrtf_id == prev.nodes@[i].prev_hrtf_id
            &&& tree.nodes@[i].listener_source_orientation
                == prev.nodes@[i].listener_source_orientation
        }
}

/// Recompute one tree against a new source and listener pose: overwrite
/// the root, then mirror every image source off its parent in level
/// order and refresh the distances.  Reflector tags, HRTF ids and
/// stored orientations are untouched.
pub fn update_source_tree(tree: &mut SourceTree, source_position: Vec3, room: &Room, listener: &Listener)
    requires
        old(tree).wf(),
        room.wf(),
        source_position.bounded(COORD_LIMIT_MM as int),
        listener.position.bounded(COORD_LIMIT_MM as int),
    ensures
        tree_updated_for(*final(tree), *old(tree), source_position, *room, listener.position),
{
    let ghost orig = tree.nodes@;
    let n = tree.nodes.len();
    let keep0 = tree.nodes[0];
    let d0 = calc_distance(&source_position, &listener.position);
    tree.nodes.set(
        0,
        Source {
            position: source_position,
            dist: d0,
            remaining_dist: d0,
            ..keep0
        },
    );
    let mut i: usize = 1;
    while i < n
        invariant
            tree.wf(),
            tree.nodes@.len() == n == orig.len(),
            tree.order == old(tree).order,
            room.wf(),
            source_position.bounded(COORD_LIMIT_MM as int),
            listener.position.bounded(COORD_LIMIT_MM as int),
            1 <= i <= n,
            tree.nodes@[0].position == source_position,
            forall|j: int| 0 <= j < i ==> node_geometry_fresh(tree.nodes@, j, *room, listener.position),
            forall|j: int| 0 <= j < i ==> level_bounded(tree.nodes@, j),
            forall|j: int| i <= j < n ==> tree.nodes@[j] == orig[j],
            forall|j: int|
                0 <= j < i ==> {
                    &&& (#[trigger] tree.nodes@[j]).curr_hrtf_id == orig[j].curr_hrtf_id
                    &&& tree.nodes@[j].prev_hrtf_id == orig[j].prev_hrtf_id
                    &&& tree.nodes@[j].listener_source_orientation == orig[j].listener_source_orientation
                },
        decreases n - i,
    {
        proof {
            lemma_layout(i as int);
        }
        let p = parent_index_of(i);
        let parent_pos = tree.nodes[p].position;
        let parent_dist = tree.nodes[p].dist;
        let keep = tree.nodes[i];
        proof {
            assert(node_geometry_fresh(tree.nodes@, p as int, *room, listener.position));
            assert(level_bounded(tree.nodes@, p as int));
            assert(level_of(p as int) <= 2);
            assert(parent_pos.bounded(8 * COORD_LIMIT_MM as int));
            assert(parent_dist >= 0);
            assert(keep.reflector == reflector_at(i as int));
        }
        let pos = calc_ism_position(&parent_pos, room, &keep.reflector);
        let d = calc_distance(&pos, &listener.position);
        let rem = if d >= parent_dist {
            d - parent_dist
        } else {
            0
        };
        let ghost before = tree.nodes@;
        tree.nodes.set(
            i,
            Source {
                position: pos,
                dist: d,
                remaining_dist: rem,
                ..keep
            },
        );
        proof {
            assert(node_geometry_fresh(tree.nodes@, i as int, *room, listener.position));
            assert(level_bounded(tree.nodes@, i as int)) by {
                assert(parent_pos.bounded(
                    (2 * (level_of(i as int) - 1) + 1) * COORD_LIMIT_MM as int,
                ));
                assert(is_mirror_of(pos, parent_pos, *room, reflector_at(i as int)));
            };
            assert forall|j: int| 0 <= j < i implies node_geometry_fresh(
                tree.nodes@,
                j,
                *room,
                listener.position,
            ) by {
                if j >= 1 {
                    lemma_layout(j);
                }
                assert(node_geometry_fresh(before, j, *room, listener.position));
            };
            assert forall|j: int| 0 <= j < i implies level_bounded(tree.nodes@, j) by {
                assert(level_bounded(before, j));
            };
        }
        i = i + 1;
    }
}

/// Build the image-source tree of one real source: the fixed layout of
/// reflector tags, with every image position mirrored off its parent.
/// Distances and HRTF ids start at zero until the first update.
#[verifier::rlimit(60)]
pub fn create_source_tree(source_position: Vec3, room: &Room, ism_order: usize) -> (tree: SourceTree)
    requires
        room.wf(),
        ism_order <= MAX_ISM_ORDER,
        source_position.bounded(COORD_LIMIT_MM as int),
    ensures
        tree.wf(),
        tree.order == ism_order,
        tree.nodes@[0].position == source_position,
        forall|i: int|
            1 <= i < tree.nodes@.len() ==> is_mirror_of(
                (#[trigger] tree.nodes@[i]).position,
                tree.nodes@[parent_index(i)].position,
                *room,
                reflector_at(i),
            ),
        forall|i: int| 0 <= i < tree.nodes@.len() ==> level_bounded(tree.nodes@, i),
        forall|i: int|
            0 <= i < tree.nodes@.len() ==> {
                &&& (#[trigger] tree.nodes@[i]).dist == 0
                &&& tree.nodes@[i].remaining_dist == 0
                &&& tree.nodes@[i].curr_hrtf_id == 0
                &&& tree.nodes@[i].prev_hrtf_id == 0
            },
{
    proof {
        lemma_reflector_at_root();
    }
    let total = total_nodes_of(ism_order);
    let mut nodes: Vec<Source> = Vec::new();
    nodes.push(
        Source {
            position: source_position,
            reflector: Reflected::No,
            dist: 0,
            remaining_dist: 0,
            curr_hrtf_id: 0,
            prev_hrtf_id: 0,
            listener_source_orientation: SphericalCoordinates { azimuth_mdeg: 0, elevation_mdeg: 0 },
        },
    );
    let mut i: usize = 1;
    while i < total
        invariant
            room.wf(),
            source_position.bounded(COORD_LIMIT_MM as int),
            1 <= i <= total <= 187,
            total == total_nodes(ism_order as int),
            nodes@.len() == i,
            nodes@[0].position == source_position,
            forall|j: int| 0 <= j < i ==> (#[trigger] nodes@[j]).reflector == reflector_at(j),
            forall|j: int|
                1 <= j < i ==> is_mirror_of(
                    (#[trigger] nodes@[j]).position,
                    nodes@[parent_index(j)].position,
                    *room,
                    reflector_at(j),
                ),
            forall|j: int| 0 <= j < i ==> level_bounded(nodes@, j),
            forall|j: int|
                0 <= j < i ==> {
                    &&& (#[trigger] nodes@[j]).dist == 0
                    &&& nodes@[j].remaining_dist == 0
                    &&& nodes@[j].curr_hrtf_id == 0
                    &&& nodes@[j].prev_hrtf_id == 0
                },
        decreases total - i,
    {
        proof {
            lemma_layout(i as int);
        }
        let p = parent_index_of(i);
        let j = ordinal_of(i);
        let parent = nodes[p];
        proof {
            assert(level_bounded(nodes@, p as int));
            assert(level_of(p as int) <= 2);
            assert(parent.position.bounded(8 * COORD_LIMIT_MM as int));
        }
        proof {
            lemma_reflector_at_root();
        }
        let refl = nth_child_reflector(parent.reflector, j);
        let pos = calc_ism_position(&parent.position, room, &refl);
        let ghost before = nodes@;
        nodes.push(
            Source {
                position: pos,
                reflector: refl,
                dist: 0,
                remaining_dist: 0,
                curr_hrtf_id: 0,
                prev_hrtf_id: 0,
                listener_source_orientation: SphericalCoordinates {
                    azimuth_mdeg: 0,
                    elevation_mdeg: 0,
                },
            },
        );
        proof {
            assert(level_bounded(nodes@, i as int)) by {
                assert(parent.position.bounded(
                    (2 * (level_of(i as int) - 1) + 1) * COORD_LIMIT_MM as int,
                ));
                assert(is_mirror_of(pos, parent.position, *room, reflector_at(i as int)));
            };
            assert forall|k: int| 1 <= k < i implies is_mirror_of(
                (#[trigger] nodes@[k]).position,
                nodes@[parent_index(k)].position,
                *room,
                reflector_at(k),
            ) by {
                lemma_layout(k);
                assert(is_mirror_of(before[k].position, before[parent_index(k)].position, *room, reflector_at(k)));
            };
            assert forall|k: int| 0 <= k < i implies level_bounded(nodes@, k) by {
                assert(level_bounded(before, k));
            };
        }
        i = i + 1;
    }
    SourceTree { nodes, order: ism_order }
}

/// The forest of image-source trees, one per real source.
#[derive(Debug, Clone, PartialEq, Eq)]
pub struct SourceTrees {
    pub trees: Vec<SourceTree>,
}

impl SourceTrees {
    /// Every tree has the fixed layout of the same order.
    pub open spec fn wf(self) -> bool {
        forall|t: int|
            0 <= t < self.trees@.len() ==> (#[trigger] self.trees@[t]).wf()
                && self.trees@[t].order == self.trees@[0].order
    }

    /// Pre-allocate the whole forest once at startup: every payload
    /// starts zeroed and is overwritten by the first snapshot.
    #[verifier::rlimit(60)]
    pub fn create(number_of_sources: usize, ism_order: usize) -> (r: SourceTrees)
        requires
            ism_order <= MAX_ISM_ORDER,
        ensures
            r.wf(),
            r.trees@.len() == number_of_sources,
            forall|t: int| 0 <= t < number_of_sources ==> (#[trigger] r.trees@[t]).order == ism_order,
    {
        let room = Room::new(0, 0, 0);
        let origin = Vec3::new(0, 0, 0);
        let mut trees: Vec<SourceTree> = Vec::new();
        let mut t: usize = 0;
        while t < number_of_sources
            invariant
                ism_order <= MAX_ISM_ORDER,
                room.wf(),
                origin.bounded(COORD_LIMIT_MM as int),
                trees@.len() == t <= number_of_sources,
                forall|k: int| 0 <= k < t ==> (#[trigger] trees@[k]).wf(),
                forall|k: int| 0 <= k < t ==> (#[trigger] trees@[k]).order == ism_order,
            decreases number_of_sources - t,
        {
            trees.push(create_source_tree(origin, &room, ism_order));
            t = t + 1;
        }
        SourceTrees { trees }
    }
}

/// Freshly updated geometry is a function of the root position, the
/// room and the listener alone: two node arrays of the same shape that
/// both satisfy it, starting from the same root position, agree on
/// every node's position, distance and remaining distance.
pub proof fn lemma_update_deterministic(
    a: Seq<Source>,
    b: Seq<Source>,
    room: Room,
    listener_pos: Vec3,
    i: int,
)
    requires
        a.len() == b.len() <= 187,
        0 <= i < a.len(),
        a[0].position == b[0].position,
        forall|j: int| 0 <= j < a.len() ==> node_geometry_fresh(a, j, room, listener_pos),
        forall|j: int| 0 <= j < b.len() ==> node_geometry_fresh(b, j, room, listener_pos),
    ensures
        a[i].position == b[i].position,
        a[i].dist == b[i].dist,
        a[i].remaining_dist == b[i].remaining_dist,
    decreases i,
{
    assert(node_geometry_fresh(a, i, room, listener_pos));
    assert(node_geometry_fresh(b, i, room, listener_pos));
    if i > 0 {
        lemma_layout(i);
        lemma_update_deterministic(a, b, room, listener_pos, parent_index(i));
    }
}

/// Sum of the per-hop remaining distances from the root down to node
/// `i`: each hop's own delay-line segment, whose delays are these
/// distances divided by the speed of sound and scaled by the sample
/// rate.
pub open spec fn path_remaining_sum(nodes: Seq<Source>, i: int) -> int {
    if i == 0 {
        nodes[0].remaining_dist as int
    } else if i < 7 {
        nodes[i].remaining_dist + nodes[0].remaining_dist
    } else if i < 37 {
        nodes[i].remaining_dist + nodes[parent_index(i)].remaining_dist + nodes[0].remaining_dist
    } else {
        let p = parent_index(i);
        nodes[i].remaining_dist + nodes[p].remaining_dist + nodes[parent_index(p)].remaining_dist
            + nodes[0].remaining_dist
    }
}

/// Delay law of the image-source model: as long as no node stands
/// closer to the listener than its parent (the floor at zero never
/// fires), the per-hop remaining distances along any path add up
/// exactly to the node's total mirrored distance to the listener.
pub proof fn lemma_path_delay_telescopes(
    nodes: Seq<Source>,
    room: Room,
    listener_pos: Vec3,
    i: int,
)
    requires
        nodes.len() <= 187,
        0 <= i < nodes.len(),
        forall|j: int| 0 <= j < nodes.len() ==> node_geometry_fresh(nodes, j, room, listener_pos),
        forall|j: int|
            1 <= j < nodes.len() ==> (#[trigger] nodes[j]).dist >= nodes[parent_index(j)].dist,
    ensures
        path_remaining_sum(nodes, i) == nodes[i].dist,
{
    assert(node_geometry_fresh(nodes, 0, room, listener_pos));
    if i > 0 {
        lemma_layout(i);
        assert(node_geometry_fresh(nodes, i, room, listener_pos));
        let p = parent_index(i);
        if p > 0 {
            lemma_layout(p);
            assert(node_geometry_fresh(nodes, p, room, listener_pos));
            let pp = parent_index(p);
            if pp > 0 {
                lemma_layout(pp);
                assert(node_geometry_fresh(nodes, pp, room, listener_pos));
                assert(parent_index(pp) == 0);
            }
        }
    }
}

} // verus!
