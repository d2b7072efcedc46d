//! Bounding-volume-hierarchy accelerator.
//!
//! The tree is stored as one flat vector of nodes in preorder.  The first
//! element of a subtree's slice is its root; an internal node records the
//! number of nodes of its whole subtree, so a traversal can either step into
//! a subtree (index + 1) or skip it (index + subtree size) without recursion
//! or a stack.  A leaf records the half-open range of object indices that it
//! covers in the final (sorted) object order.

use vstd::prelude::*;

use crate::aabb::{AABoundingBox, HasAABoundingBox, axis_of, box_in_range, contains_box, coord_in_range};
use crate::math::HasElemWiseExtrema;
use crate::splitter::{AREA_LIMIT, BVHSplitter, COUNT_LIMIT, HasSurfaceArea, Rational, SAHConstants, SAHSubdivideGuessSplitter};

verus! {

/// The summary of one primitive as the accelerator organizes it: an exact
/// integer bounding box, a surface area in the caller's area units, and the
/// caller's handle for the primitive itself.
#[derive(Clone, Copy, Debug, PartialEq, Eq, Structural)]
pub struct BoundedObject {
    pub bounds: AABoundingBox,
    pub area: u64,
    pub handle: usize,
}

pub open spec fn object_wf(o: BoundedObject) -> bool {
    box_in_range(o.bounds) && o.area <= AREA_LIMIT
}

impl HasAABoundingBox for BoundedObject {
    open spec fn spec_bounding_box(&self) -> AABoundingBox {
        self.bounds
    }

    fn aa_bounding_box_ref(&self) -> (r: &AABoundingBox) {
        &self.bounds
    }
}

impl HasSurfaceArea for BoundedObject {
    open spec fn spec_surface_area(&self) -> u64 {
        self.area
    }

    fn surface_area(&self) -> (r: u64) {
        self.area
    }
}

/// One node of the flat tree.
#[derive(Clone, Copy, Debug)]
pub enum BVHTree {
    Node { number_of_nodes: usize, wrapper: AABoundingBox },
    Leaf { start: usize, end: usize, wrapper: AABoundingBox },
}

/// The number of nodes that the subtree rooted at `t` claims to occupy.
pub open spec fn node_size(t: BVHTree) -> int {
    match t {
        BVHTree::Node { number_of_nodes, .. } => number_of_nodes as int,
        BVHTree::Leaf { .. } => 1,
    }
}

pub open spec fn node_box(t: BVHTree) -> AABoundingBox {
    match t {
        BVHTree::Node { wrapper, .. } => wrapper,
        BVHTree::Leaf { wrapper, .. } => wrapper,
    }
}

/// The object index where the subtree rooted at `i` stops covering: for a
/// leaf its range end, for an internal node the end of its right subtree.
pub open spec fn subtree_hi(nodes: Seq<BVHTree>, i: int) -> int
    decreases nodes.len() - i,
{
    if i < 0 || i >= nodes.len() {
        0
    } else {
        match nodes[i] {
            BVHTree::Leaf { end, .. } => end as int,
            BVHTree::Node { .. } => {
                let ls = if node_size(nodes[i + 1]) < 1 {
                    1
                } else {
                    node_size(nodes[i + 1])
                };
                let ri = i + 1 + ls;
                if ri >= nodes.len() {
                    0
                } else {
                    subtree_hi(nodes, ri)
                }
            },
        }
    }
}

/// The subtree rooted at index `i` is a well-formed preorder layout covering
/// exactly the object range `[lo, hi)`, and every node's box bounds every
/// object below that node, whichever order the objects within the range are
/// permuted to.  An internal node's range splits where its left subtree
/// stops covering.
pub open spec fn subtree_wf(
    nodes: Seq<BVHTree>,
    i: int,
    lo: int,
    hi: int,
    objs: Seq<BoundedObject>,
) -> bool
    decreases nodes.len() - i,
{
    &&& 0 <= i < nodes.len()
    &&& 0 <= lo < hi <= objs.len()
    &&& i + node_size(nodes[i]) <= nodes.len()
    &&& (forall|b: BoundedObject|
        objs.subrange(lo, hi).to_multiset().count(b) > 0 ==> contains_box(
            node_box(nodes[i]),
            b.bounds,
        ))
    &&& match nodes[i] {
        BVHTree::Leaf { start, end, .. } => start == lo && end == hi,
        BVHTree::Node { .. } => {
            let ls = node_size(nodes[i + 1]);
            let ri = i + 1 + ls;
            let m = subtree_hi(nodes, i + 1);
            &&& lo < m < hi
            &&& i + 1 < nodes.len()
            &&& ls >= 1
            &&& ri < nodes.len()
            &&& subtree_wf(nodes, i + 1, lo, m, objs)
            &&& subtree_wf(nodes, ri, m, hi, objs)
            &&& node_size(nodes[i]) == 1 + ls + node_size(nodes[ri])
        },
    }
}

/// The accelerator: a flat preorder array of nodes.  The root is index 0.
#[derive(Debug)]
pub struct BVHAccelerator {
    nodes: Vec<BVHTree>,
}

/// Extends `vector` with clones of `default` until index `idx` exists.
pub fn ensure_idx_exists<T: Clone>(vector: &mut Vec<T>, idx: usize, default: T)
    ensures
        final(vector)@.len() == if old(vector)@.len() > idx {
            old(vector)@.len() as int
        } else {
            idx + 1
        },
        forall|i: int| 0 <= i < old(vector)@.len() ==> final(vector)@[i] == old(vector)@[i],
        forall|i: int|
            old(vector)@.len() <= i < final(vector)@.len() ==> vstd::pervasive::cloned::<T>(
                default,
                #[trigger] final(vector)@[i],
            ),
{
    while idx >= vector.len()
        invariant
            forall|i: int| 0 <= i < old(vector)@.len() ==> vector@[i] == old(vector)@[i],
            forall|i: int|
                old(vector)@.len() <= i < vector@.len() ==> vstd::pervasive::cloned::<T>(
                    default,
                    #[trigger] vector@[i],
                ),
            vector@.len() >= old(vector)@.len(),
            vector@.len() <= idx + 1 || vector@.len() == old(vector)@.len(),
        decreases idx + 1 - vector@.len(),
    {
        vector.push(default.clone())
    }
}

/// One step of the flat walk: what the iterative traversal emits from node
/// `i` (exclusive of anything at or past `end`), given the box test result
/// `hits[i]` for every node.
pub open spec fn spec_walk(
    nodes: Seq<BVHTree>,
    hits: Seq<bool>,
    i: int,
    end: int,
) -> Seq<(usize, usize)>
    decreases end - i,
{
    if i < 0 || i >= end || i >= nodes.len() {
        Seq::empty()
    } else {
        match nodes[i] {
            BVHTree::Leaf { start, end: leaf_end, .. } => (if hits[i] {
                seq![(start, leaf_end)]
            } else {
                Seq::empty()
            }) + spec_walk(nodes, hits, i + 1, end),
            BVHTree::Node { number_of_nodes, .. } => {
                if hits[i] {
                    spec_walk(nodes, hits, i + 1, end)
                } else {
                    let step = if number_of_nodes < 1 {
                        1
                    } else {
                        number_of_nodes as int
                    };
                    let next = if i + step > end {
                        end
                    } else {
                        i + step
                    };
                    spec_walk(nodes, hits, next, end)
                }
            },
        }
    }
}

impl BVHAccelerator {
    pub closed spec fn spec_nodes(&self) -> Seq<BVHTree> {
        self.nodes@
    }

    /// The accelerator is well formed for the object order `objs`: either
    /// both are empty, or the root at index 0 is a well-formed subtree that
    /// covers all of `objs` and accounts for every node of the flat array.
    pub open spec fn wf_for(&self, objs: Seq<BoundedObject>) -> bool {
        if objs.len() == 0 {
            self.spec_nodes().len() == 0
        } else {
            &&& subtree_wf(self.spec_nodes(), 0, 0, objs.len() as int, objs)
            &&& node_size(self.spec_nodes()[0]) == self.spec_nodes().len()
        }
    }

    pub fn node_count(&self) -> (r: usize)
        ensures
            r == self.spec_nodes().len(),
    {
        self.nodes.len()
    }

    /// The bounding box stored at flat index `i`; the caller runs its ray/box
    /// tests against these.
    pub fn node_box_at(&self, i: usize) -> (r: AABoundingBox)
        requires
            i < self.spec_nodes().len(),
        ensures
            r == node_box(self.spec_nodes()[i as int]),
    {
        match &self.nodes[i] {
            BVHTree::Node { wrapper, .. } => *wrapper,
            BVHTree::Leaf { wrapper, .. } => *wrapper,
        }
    }

    /// Walks the flat array and appends the index range of every leaf whose
    /// box was hit, skipping whole subtrees whose root box was missed.
    /// `hits[i]` must answer, for node `i`, whether the ray hits its box.
    fn intersect_box_intern(
        &self,
        hits: &Vec<bool>,
        intersection_indices: &mut Vec<(usize, usize)>,
    )
        requires
            hits@.len() == self.spec_nodes().len(),
        ensures
            final(intersection_indices)@ == old(intersection_indices)@ + spec_walk(
                self.spec_nodes(),
                hits@,
                0,
                self.spec_nodes().len() as int,
            ),
    {
        let end = self.nodes.len();
        let mut i_node: usize = 0;
        while i_node < end
            invariant
                end == self.spec_nodes().len(),
                hits@.len() == self.spec_nodes().len(),
                i_node <= end,
                intersection_indices@ + spec_walk(
                    self.spec_nodes(),
                    hits@,
                    i_node as int,
                    end as int,
                ) == old(intersection_indices)@ + spec_walk(
                    self.spec_nodes(),
                    hits@,
                    0,
                    end as int,
                ),
            decreases end - i_node,
        {
            let node = &self.nodes[i_node];
            match node {
                BVHTree::Node { number_of_nodes, .. } => {
                    if hits[i_node] {
                        i_node = i_node + 1;
                    } else {
                        // skip the whole subtree
                        let step = if *number_of_nodes < 1 {
                            1
                        } else {
                            *number_of_nodes
                        };
                        if step >= end - i_node {
                            proof {
                                assert(spec_walk(
                                    self.spec_nodes(),
                                    hits@,
                                    i_node + step,
                                    end as int,
                                ) =~= spec_walk(self.spec_nodes(), hits@, end as int, end as int));
                            }
                            i_node = end;
                        } else {
                            i_node = i_node + step;
                        }
                    }
                },
                BVHTree::Leaf { start, end: leaf_end, .. } => {
                    if hits[i_node] {
                        intersection_indices.push((*start, *leaf_end));
                    }
                    i_node = i_node + 1;
                },
            }
            proof {
                assert(intersection_indices@ + spec_walk(
                    self.spec_nodes(),
                    hits@,
                    i_node as int,
                    end as int,
                ) =~= old(intersection_indices)@ + spec_walk(
                    self.spec_nodes(),
                    hits@,
                    0,
                    end as int,
                ));
            }
        }
        proof {
            assert(intersection_indices@ =~= intersection_indices@ + spec_walk(
                self.spec_nodes(),
                hits@,
                end as int,
                end as int,
            ));
        }
    }

    /// The candidate object ranges for a ray whose per-node box test results
    /// are `hits`.  Because the left subtree is stored first, the returned
    /// ranges come out in ascending index order.
    pub fn intersect_boxes(&self, hits: &Vec<bool>) -> (r: Vec<(usize, usize)>)
        requires
            hits@.len() == self.spec_nodes().len(),
        ensures
            r@ == spec_walk(self.spec_nodes(), hits@, 0, self.spec_nodes().len() as int),
    {
        let mut indices = Vec::<(usize, usize)>::new();
        self.intersect_box_intern(hits, &mut indices);
        indices
    }
}

/// The extent of `b` along axis `a`.
pub open spec fn spec_extent(b: AABoundingBox, a: int) -> int {
    axis_of(b.upper, a) - axis_of(b.lower, a)
}

/// The build's tie rule for the sort axis: the widest axis of the union box,
/// with `x` winning ties against `y` and `z`, then `y` against `z`.
pub open spec fn spec_widest_axis(b: AABoundingBox) -> int {
    if spec_extent(b, 0) >= spec_extent(b, 1) && spec_extent(b, 0) >= spec_extent(b, 2) {
        0
    } else if spec_extent(b, 1) >= spec_extent(b, 0) && spec_extent(b, 1) >= spec_extent(b, 2) {
        1
    } else {
        2
    }
}

fn widest_axis(b: &AABoundingBox) -> (a: usize)
    requires
        box_in_range(*b),
    ensures
        a < 3,
        a == spec_widest_axis(*b),
{
    let dx = b.upper.x - b.lower.x;
    let dy = b.upper.y - b.lower.y;
    let dz = b.upper.z - b.lower.z;
    if dx >= dy && dx >= dz {
        0
    } else if dy >= dx && dy >= dz {
        1
    } else {
        2
    }
}

/// The sort key of the builder: twice the box centroid along `a`.
pub open spec fn centroid_key_of(o: BoundedObject, a: int) -> int {
    axis_of(o.bounds.lower, a) + axis_of(o.bounds.upper, a)
}

/// The fold that `get_aa_bounding_box` computes: the union of the first
/// `n` boxes, starting from the empty box.
pub open spec fn spec_enclosing_box<T: HasAABoundingBox>(elems: Seq<T>, n: int) -> AABoundingBox
    decreases n,
{
    if n <= 0 {
        crate::aabb::spec_empty_box()
    } else {
        crate::aabb::spec_box_union(
            spec_enclosing_box(elems, n - 1),
            elems[n - 1].spec_bounding_box(),
        )
    }
}

/// The union of the bounding boxes of any sequence of bounded things,
/// starting from the empty box.
pub fn get_aa_bounding_box<T: HasAABoundingBox>(elems: &Vec<T>) -> (r: AABoundingBox)
    ensures
        r == spec_enclosing_box(elems@, elems@.len() as int),
        forall|j: int|
            0 <= j < elems@.len() ==> contains_box(r, (#[trigger] elems@[j]).spec_bounding_box()),
{
    let mut full_bounding_box = AABoundingBox::empty();
    let mut i: usize = 0;
    while i < elems.len()
        invariant
            i <= elems@.len(),
            full_bounding_box == spec_enclosing_box(elems@, i as int),
            forall|j: int|
                0 <= j < i ==> contains_box(full_bounding_box, (#[trigger] elems@[j]).spec_bounding_box()),
        decreases elems@.len() - i,
    {
        let bbox = elems[i].aa_bounding_box_ref();
        full_bounding_box = full_bounding_box.union_with(bbox);
        i = i + 1;
    }
    full_bounding_box
}

/// The union of the boxes of `objects[lo..hi)`.
fn union_of_range(objects: &Vec<BoundedObject>, lo: usize, hi: usize) -> (r: AABoundingBox)
    requires
        lo <= hi <= objects@.len(),
        forall|j: int| lo <= j < hi ==> box_in_range((#[trigger] objects@[j]).bounds),
    ensures
        forall|j: int| lo <= j < hi ==> contains_box(r, (#[trigger] objects@[j]).bounds),
        lo < hi ==> box_in_range(r),
{
    let mut full_bounding_box = AABoundingBox::empty();
    let mut i: usize = lo;
    while i < hi
        invariant
            lo <= i <= hi <= objects@.len(),
            forall|j: int| lo <= j < hi ==> box_in_range((#[trigger] objects@[j]).bounds),
            forall|j: int| lo <= j < i ==> contains_box(full_bounding_box, (#[trigger] objects@[j]).bounds),
            i == lo ==> full_bounding_box == crate::aabb::spec_empty_box(),
            lo < i ==> box_in_range(full_bounding_box),
        decreases hi - i,
    {
        let ghost prev = full_bounding_box;
        full_bounding_box = full_bounding_box.union_with(&objects[i].bounds);
        proof {
            let b = objects@[i as int].bounds;
            assert(coord_in_range(b.lower) && coord_in_range(b.upper));
            assert(full_bounding_box.lower == prev.lower.spec_min_elem_wise(&b.lower));
            assert(full_bounding_box.upper == prev.upper.spec_max_elem_wise(&b.upper));
            assert(box_in_range(full_bounding_box));
        }
        i = i + 1;
    }
    full_bounding_box
}

/// Whether the neighbours at `j - 1` and `j` sit in the wrong order for the
/// centroid sort along `axis`.
fn keys_out_of_order(objects: &Vec<BoundedObject>, j: usize, axis: usize) -> (r: bool)
    requires
        0 < j < objects@.len(),
        axis < 3,
        box_in_range(objects@[j - 1].bounds),
        box_in_range(objects@[j as int].bounds),
    ensures
        r == (centroid_key_of(objects@[j - 1], axis as int) > centroid_key_of(
            objects@[j as int],
            axis as int,
        )),
{
    let key_prev = objects[j - 1].bounds.centroid_key(axis);
    let key_here = objects[j].bounds.centroid_key(axis);
    key_prev > key_here
}

/// A swap of two positions inside `[lo, hi)` keeps the multiset of that
/// range.
proof fn lemma_swap_preserves_range_multiset(
    s: Seq<BoundedObject>,
    lo: int,
    hi: int,
    p: int,
    q: int,
)
    requires
        0 <= lo <= p < hi <= s.len(),
        lo <= q < hi,
    ensures
        s.update(p, s[q]).update(q, s[p]).subrange(lo, hi).to_multiset() == s.subrange(
            lo,
            hi,
        ).to_multiset(),
{
    broadcast use vstd::seq_lib::group_to_multiset_ensures;
    broadcast use vstd::multiset::group_multiset_axioms;

    let sub = s.subrange(lo, hi);
    let s2 = s.update(p, s[q]).update(q, s[p]);
    if p == q {
        assert(s2.subrange(lo, hi) =~= sub);
    } else {
        assert(s2.subrange(lo, hi) =~= sub.update(p - lo, sub[q - lo]).update(q - lo, sub[p - lo]));
        vstd::seq_lib::to_multiset_update(sub, p - lo, sub[q - lo]);
        vstd::seq_lib::to_multiset_update(
            sub.update(p - lo, sub[q - lo]),
            q - lo,
            sub[p - lo],
        );
        assert(sub.update(p - lo, sub[q - lo])[q - lo] == sub[q - lo]);
        assert(s2.subrange(lo, hi).to_multiset() =~= sub.to_multiset());
    }
}

/// Stable insertion sort of `objects[lo..hi)` by centroid key along `axis`:
/// a permutation of the range, ordered by the key, with everything outside
/// the range untouched.
fn sort_range_by_centroid(objects: &mut Vec<BoundedObject>, lo: usize, hi: usize, axis: usize)
    requires
        axis < 3,
        lo <= hi <= old(objects)@.len(),
        forall|j: int| 0 <= j < old(objects)@.len() ==> object_wf(#[trigger] old(objects)@[j]),
    ensures
        final(objects)@.len() == old(objects)@.len(),
        forall|j: int| 0 <= j < lo ==> final(objects)@[j] == old(objects)@[j],
        forall|j: int|
            hi <= j < old(objects)@.len() ==> final(objects)@[j] == old(objects)@[j],
        final(objects)@.subrange(lo as int, hi as int).to_multiset() == old(objects)@.subrange(
            lo as int,
            hi as int,
        ).to_multiset(),
        forall|p: int, q: int|
            lo <= p < q < hi ==> centroid_key_of(#[trigger] final(objects)@[p], axis as int)
                <= centroid_key_of(#[trigger] final(objects)@[q], axis as int),
        forall|j: int| 0 <= j < final(objects)@.len() ==> object_wf(#[trigger] final(objects)@[j]),
{
    if hi - lo <= 1 {
        return ;
    }
    let mut i: usize = lo + 1;
    while i < hi
        invariant
            lo < i <= hi <= objects@.len(),
            objects@.len() == old(objects)@.len(),
            axis < 3,
            forall|j: int| 0 <= j < lo ==> objects@[j] == old(objects)@[j],
            forall|j: int|
                hi <= j < old(objects)@.len() ==> objects@[j] == old(objects)@[j],
            objects@.subrange(lo as int, hi as int).to_multiset() == old(objects)@.subrange(
                lo as int,
                hi as int,
            ).to_multiset(),
            forall|p: int, q: int|
                lo <= p < q < i ==> centroid_key_of(#[trigger] objects@[p], axis as int)
                    <= centroid_key_of(#[trigger] objects@[q], axis as int),
            forall|j: int| 0 <= j < objects@.len() ==> object_wf(#[trigger] objects@[j]),
        decreases hi - i,
    {
        let mut j: usize = i;
        while j > lo && keys_out_of_order(objects, j, axis)
            invariant
                lo <= j <= i < hi <= objects@.len(),
                objects@.len() == old(objects)@.len(),
                axis < 3,
                forall|t: int| 0 <= t < lo ==> objects@[t] == old(objects)@[t],
                forall|t: int|
                    hi <= t < old(objects)@.len() ==> objects@[t] == old(objects)@[t],
                objects@.subrange(lo as int, hi as int).to_multiset() == old(objects)@.subrange(
                    lo as int,
                    hi as int,
                ).to_multiset(),
                forall|p: int, q: int|
                    lo <= p < q <= i && q != j ==> centroid_key_of(
                        #[trigger] objects@[p],
                        axis as int,
                    ) <= centroid_key_of(#[trigger] objects@[q], axis as int),
                forall|p: int|
                    j < p <= i ==> centroid_key_of(objects@[j as int], axis as int)
                        <= centroid_key_of(#[trigger] objects@[p], axis as int),
                forall|t: int| 0 <= t < objects@.len() ==> object_wf(#[trigger] objects@[t]),
            decreases j,
        {
            let ghost pre = objects@;
            let tmp_prev = objects[j - 1];
            let tmp_here = objects[j];
            objects[j - 1] = tmp_here;
            objects[j] = tmp_prev;
            proof {
                lemma_swap_preserves_range_multiset(pre, lo as int, hi as int, j - 1, j as int);
                assert(objects@ =~= pre.update(j - 1, pre[j as int]).update(j as int, pre[j - 1]));
            }
            j = j - 1;
        }
        i = i + 1;
    }
}

/// A well-formed subtree stops covering exactly at its `hi`.
pub proof fn lemma_subtree_hi(
    nodes: Seq<BVHTree>,
    i: int,
    lo: int,
    hi: int,
    objs: Seq<BoundedObject>,
)
    requires
        subtree_wf(nodes, i, lo, hi, objs),
    ensures
        subtree_hi(nodes, i) == hi,
    decreases nodes.len() - i,
{
    if nodes[i] is Node {
        let ls = node_size(nodes[i + 1]);
        let ri = i + 1 + ls;
        let m = subtree_hi(nodes, i + 1);
        lemma_subtree_hi(nodes, ri, m, hi, objs);
    }
}

/// A box that bounds every element of `s[lo..hi)` pointwise bounds every
/// member of that range's multiset.
proof fn lemma_box_bounds_range(s: Seq<BoundedObject>, lo: int, hi: int, bbox: AABoundingBox)
    requires
        0 <= lo <= hi <= s.len(),
        forall|j: int| lo <= j < hi ==> contains_box(bbox, (#[trigger] s[j]).bounds),
    ensures
        forall|b: BoundedObject|
            s.subrange(lo, hi).to_multiset().count(b) > 0 ==> contains_box(bbox, b.bounds),
{
    broadcast use vstd::seq_lib::group_to_multiset_ensures;

    let sub = s.subrange(lo, hi);
    assert forall|b: BoundedObject| sub.to_multiset().count(b) > 0 implies contains_box(
        bbox,
        b.bounds,
    ) by {
        assert(sub.contains(b));
        let idx = choose|idx: int| 0 <= idx < sub.len() && sub[idx] == b;
        assert(s[lo + idx] == b);
    }
}

/// The multiset of a range is the two halves' multisets put together.
proof fn lemma_range_multiset_concat(s: Seq<BoundedObject>, lo: int, mid: int, hi: int)
    requires
        0 <= lo <= mid <= hi <= s.len(),
    ensures
        s.subrange(lo, hi).to_multiset() == s.subrange(lo, mid).to_multiset().add(
            s.subrange(mid, hi).to_multiset(),
        ),
{
    assert(s.subrange(lo, hi) =~= s.subrange(lo, mid) + s.subrange(mid, hi));
    vstd::seq_lib::lemma_multiset_commutative(s.subrange(lo, mid), s.subrange(mid, hi));
}

/// Every well-formed subtree accounts for at least one node.
proof fn lemma_subtree_wf_size_at_least_one(
    nodes: Seq<BVHTree>,
    i: int,
    lo: int,
    hi: int,
    objs: Seq<BoundedObject>,
)
    requires
        subtree_wf(nodes, i, lo, hi, objs),
    ensures
        node_size(nodes[i]) >= 1,
{
}

/// Pointwise agreement on a window gives equal subranges.
proof fn lemma_subrange_eq_from_pointwise<A>(s1: Seq<A>, s2: Seq<A>, a: int, b: int)
    requires
        0 <= a <= b <= s1.len(),
        b <= s2.len(),
        forall|k: int| a <= k < b ==> #[trigger] s2[k] == s1[k],
    ensures
        s2.subrange(a, b) == s1.subrange(a, b),
{
    assert forall|x: int| 0 <= x < b - a implies s2.subrange(a, b)[x] == s1.subrange(a, b)[x] by {
        assert(s2.subrange(a, b)[x] == s2[a + x]);
        assert(s1.subrange(a, b)[x] == s1[a + x]);
        assert(s2[a + x] == s1[a + x]);
    }
    assert(s2.subrange(a, b) =~= s1.subrange(a, b));
}

/// Two sequences that agree on `[a, b)` as subranges agree at each index.
proof fn lemma_nodes_agree_at(s1: Seq<BVHTree>, s2: Seq<BVHTree>, a: int, b: int, k: int)
    requires
        0 <= a <= k < b <= s1.len(),
        b <= s2.len(),
        s2.subrange(a, b) == s1.subrange(a, b),
    ensures
        s2[k] == s1[k],
{
    assert(s2.subrange(a, b)[k - a] == s1.subrange(a, b)[k - a]);
    assert(s2.subrange(a, b)[k - a] == s2[k]);
    assert(s1.subrange(a, b)[k - a] == s1[k]);
}

/// Subrange agreement restricts to any inner window.
proof fn lemma_nodes_agree_inner(s1: Seq<BVHTree>, s2: Seq<BVHTree>, a: int, b: int, c: int, d: int)
    requires
        0 <= a <= c <= d <= b <= s1.len(),
        b <= s2.len(),
        s2.subrange(a, b) == s1.subrange(a, b),
    ensures
        s2.subrange(c, d) == s1.subrange(c, d),
{
    assert forall|x: int| 0 <= x < d - c implies s2.subrange(c, d)[x] == s1.subrange(c, d)[x] by {
        lemma_nodes_agree_at(s1, s2, a, b, c + x);
    }
    assert(s2.subrange(c, d) =~= s1.subrange(c, d));
}

/// Well-formedness of a subtree depends only on the nodes of its own span
/// and the objects of its own range.
proof fn lemma_subtree_wf_frame(
    nodes1: Seq<BVHTree>,
    nodes2: Seq<BVHTree>,
    i: int,
    lo: int,
    hi: int,
    objs1: Seq<BoundedObject>,
    objs2: Seq<BoundedObject>,
)
    requires
        subtree_wf(nodes1, i, lo, hi, objs1),
        i + node_size(nodes1[i]) <= nodes2.len(),
        nodes2.subrange(i, i + node_size(nodes1[i])) == nodes1.subrange(
            i,
            i + node_size(nodes1[i]),
        ),
        hi <= objs2.len(),
        objs2.subrange(lo, hi) == objs1.subrange(lo, hi),
    ensures
        subtree_wf(nodes2, i, lo, hi, objs2),
    decreases nodes1.len() - i,
{
    let sz = node_size(nodes1[i]);
    lemma_nodes_agree_at(nodes1, nodes2, i, i + sz, i);
    assert(nodes2[i] == nodes1[i]);
    assert(objs2.subrange(lo, hi).to_multiset() == objs1.subrange(lo, hi).to_multiset());
    if nodes1[i] is Node {
        let ls = node_size(nodes1[i + 1]);
        let ri = i + 1 + ls;
        let rs = node_size(nodes1[ri]);
        let m = subtree_hi(nodes1, i + 1);
        assert(subtree_wf(nodes1, i + 1, lo, m, objs1));
        assert(subtree_wf(nodes1, ri, m, hi, objs1));
        assert(rs >= 1) by {
            lemma_subtree_wf_size_at_least_one(nodes1, ri, m, hi, objs1);
        }
        assert(node_size(nodes1[i]) == 1 + ls + rs);
        lemma_nodes_agree_at(nodes1, nodes2, i, i + sz, i + 1);
        lemma_nodes_agree_at(nodes1, nodes2, i, i + sz, ri);
        lemma_nodes_agree_inner(nodes1, nodes2, i, i + sz, i + 1, i + 1 + ls);
        assert forall|j: int| lo <= j < m implies #[trigger] objs2[j] == objs1[j] by {
            assert(objs2.subrange(lo, hi)[j - lo] == objs1.subrange(lo, hi)[j - lo]);
            assert(objs2.subrange(lo, hi)[j - lo] == objs2[j]);
            assert(objs1.subrange(lo, hi)[j - lo] == objs1[j]);
        }
        lemma_subrange_eq_from_pointwise(objs1, objs2, lo, m);
        lemma_subtree_wf_frame(nodes1, nodes2, i + 1, lo, m, objs1, objs2);
        lemma_nodes_agree_inner(nodes1, nodes2, i, i + sz, ri, ri + rs);
        assert forall|j: int| m <= j < hi implies #[trigger] objs2[j] == objs1[j] by {
            assert(objs2.subrange(lo, hi)[j - lo] == objs1.subrange(lo, hi)[j - lo]);
            assert(objs2.subrange(lo, hi)[j - lo] == objs2[j]);
            assert(objs1.subrange(lo, hi)[j - lo] == objs1[j]);
        }
        lemma_subrange_eq_from_pointwise(objs1, objs2, m, hi);
        lemma_subtree_wf_frame(nodes1, nodes2, ri, m, hi, objs1, objs2);
        lemma_subtree_hi(nodes2, i + 1, lo, m, objs2);
        assert(node_size(nodes2[i + 1]) == ls);
        assert(node_size(nodes2[ri]) == rs);
        assert(subtree_wf(nodes2, i, lo, hi, objs2));
    }
}

/// The recursive builder: lays the subtree for `objects[lo..hi)` out at
/// `tree_index` (the current end of `tree_nodes`) and returns the number of
/// nodes it appended.
fn build_tree<S: BVHSplitter>(
    tree_nodes: &mut Vec<BVHTree>,
    tree_index: usize,
    objects: &mut Vec<BoundedObject>,
    lo: usize,
    hi: usize,
    splitter: &S,
) -> (n: usize)
    requires
        splitter.wf(),
        tree_index == old(tree_nodes)@.len(),
        lo < hi <= old(objects)@.len(),
        old(objects)@.len() <= COUNT_LIMIT,
        old(tree_nodes)@.len() + 2 * (hi - lo) <= 0x7FFF_FFFF,
        forall|j: int| 0 <= j < old(objects)@.len() ==> object_wf(#[trigger] old(objects)@[j]),
    ensures
        1 <= n <= 2 * (hi - lo) - 1,
        final(tree_nodes)@.len() == old(tree_nodes)@.len() + n,
        forall|k: int|
            0 <= k < old(tree_nodes)@.len() ==> #[trigger] final(tree_nodes)@[k] == old(
                tree_nodes,
            )@[k],
        final(objects)@.len() == old(objects)@.len(),
        forall|j: int| 0 <= j < lo ==> #[trigger] final(objects)@[j] == old(objects)@[j],
        forall|j: int|
            hi <= j < old(objects)@.len() ==> #[trigger] final(objects)@[j] == old(objects)@[j],
        final(objects)@.subrange(lo as int, hi as int).to_multiset() == old(objects)@.subrange(
            lo as int,
            hi as int,
        ).to_multiset(),
        forall|j: int| 0 <= j < final(objects)@.len() ==> object_wf(#[trigger] final(objects)@[j]),
        subtree_wf(final(tree_nodes)@, tree_index as int, lo as int, hi as int, final(objects)@),
        node_size(final(tree_nodes)@[tree_index as int]) == n,
    decreases hi - lo,
{
    let ghost glo = lo as int;
    let ghost ghi = hi as int;

    // sort the run by centroid along the widest axis of its union box
    let ghost objs_pre = objects@;
    let objects_bbox = union_of_range(objects, lo, hi);
    let axis = widest_axis(&objects_bbox);
    proof {
        lemma_box_bounds_range(objs_pre, glo, ghi, objects_bbox);
    }
    sort_range_by_centroid(objects, lo, hi, axis);
    let ghost objs_sorted = objects@;
    proof {
        assert(objs_sorted.subrange(glo, ghi).to_multiset() == objs_pre.subrange(
            glo,
            ghi,
        ).to_multiset());
    }

    let m = splitter.get_spliting_index(objects, lo, hi);

    ensure_idx_exists(
        tree_nodes,
        tree_index,
        BVHTree::Node { number_of_nodes: 1, wrapper: AABoundingBox::new() },
    );

    if m == 0 {
        tree_nodes[tree_index] = BVHTree::Leaf { start: lo, end: hi, wrapper: objects_bbox };
        proof {
            assert(subtree_wf(tree_nodes@, tree_index as int, glo, ghi, objects@));
        }
        1
    } else {
        let num_nodes_in_left = build_tree(tree_nodes, tree_index + 1, objects, lo, lo + m, splitter);
        let ghost nodes_after_left = tree_nodes@;
        let ghost objs_after_left = objects@;
        let num_nodes_in_right = build_tree(
            tree_nodes,
            tree_index + 1 + num_nodes_in_left,
            objects,
            lo + m,
            hi,
            splitter,
        );
        let ghost nodes_after_right = tree_nodes@;
        let ghost objs_after_right = objects@;
        let num_nodes = 1 + num_nodes_in_left + num_nodes_in_right;
        tree_nodes[tree_index] = BVHTree::Node { number_of_nodes: num_nodes, wrapper: objects_bbox };
        proof {
            let ti = tree_index as int;
            let gm = glo + m;
            let nodes_final = tree_nodes@;
            let objs_final = objects@;
            let nl = num_nodes_in_left as int;
            let nr = num_nodes_in_right as int;

            // the left subtree survives the right build and the root write
            assert(subtree_wf(nodes_after_left, ti + 1, glo, gm, objs_after_left));
            assert(node_size(nodes_after_left[ti + 1]) == nl);
            assert forall|k: int|
                ti + 1 <= k < ti + 1 + nl implies #[trigger] nodes_final[k] == nodes_after_left[k] by {
                assert(nodes_after_right[k] == nodes_after_left[k]);
            }
            lemma_subrange_eq_from_pointwise(nodes_after_left, nodes_final, ti + 1, ti + 1 + nl);
            assert forall|j: int| glo <= j < gm implies #[trigger] objs_final[j] == objs_after_left[j] by {}
            lemma_subrange_eq_from_pointwise(objs_after_left, objs_final, glo, gm);
            lemma_subtree_wf_frame(
                nodes_after_left,
                nodes_final,
                ti + 1,
                glo,
                gm,
                objs_after_left,
                objs_final,
            );
            // the right subtree survives the root write
            assert(node_size(nodes_after_right[ti + 1 + nl]) == nr);
            assert forall|k: int|
                ti + 1 + nl <= k < ti + 1 + nl + nr implies #[trigger] nodes_final[k]
                == nodes_after_right[k] by {}
            lemma_subrange_eq_from_pointwise(
                nodes_after_right,
                nodes_final,
                ti + 1 + nl,
                ti + 1 + nl + nr,
            );
            assert forall|j: int| gm <= j < ghi implies #[trigger] objs_final[j] == objs_after_right[j] by {}
            lemma_subrange_eq_from_pointwise(objs_after_right, objs_final, gm, ghi);
            lemma_subtree_wf_frame(
                nodes_after_right,
                nodes_final,
                ti + 1 + nl,
                gm,
                ghi,
                objs_after_right,
                objs_final,
            );

            // the run's multiset is unchanged by the children's sorting
            lemma_range_multiset_concat(objs_sorted, glo, gm, ghi);
            lemma_range_multiset_concat(objs_after_left, glo, gm, ghi);
            lemma_range_multiset_concat(objs_final, glo, gm, ghi);
            assert(objs_after_left.subrange(gm, ghi) =~= objs_sorted.subrange(gm, ghi));
            assert(objs_final.subrange(glo, gm) =~= objs_after_left.subrange(glo, gm));
            assert(objs_final.subrange(glo, ghi).to_multiset() == objs_sorted.subrange(
                glo,
                ghi,
            ).to_multiset());

            assert(node_size(nodes_final[ti + 1]) == nl);
            assert(node_size(nodes_final[ti + 1 + nl]) == nr);
            lemma_subtree_hi(nodes_final, ti + 1, glo, gm, objs_final);
            assert(subtree_wf(nodes_final, ti, glo, ghi, objs_final));

            // and the whole-range multiset result for the ensures
            lemma_range_multiset_concat(objects@.subrange(glo, ghi), 0, gm - glo, ghi - glo);
        }
        num_nodes
    }
}

impl BVHAccelerator {
    /// Builds the accelerator for `objects` with the surface-area-heuristic
    /// splitter that ships: 50 candidate subdivisions, traversal cost 2 and
    /// intersection cost 3/5.  The objects end up permuted into the order
    /// that the tree's leaf ranges index.
    pub fn new(objects: &mut Vec<BoundedObject>) -> (r: BVHAccelerator)
        requires
            old(objects)@.len() <= COUNT_LIMIT,
            forall|j: int| 0 <= j < old(objects)@.len() ==> object_wf(#[trigger] old(objects)@[j]),
        ensures
            final(objects)@.len() == old(objects)@.len(),
            final(objects)@.to_multiset() == old(objects)@.to_multiset(),
            forall|j: int|
                0 <= j < final(objects)@.len() ==> object_wf(#[trigger] final(objects)@[j]),
            r.wf_for(final(objects)@),
    {
        let splitter = SAHSubdivideGuessSplitter {
            number_of_subdivs: 50,
            sah_consts: SAHConstants {
                cost_traversal: Rational { num: 2, den: 1 },
                cost_triangle_intersection: Rational { num: 3, den: 5 },
            },
        };
        BVHAccelerator::new_with_splitter(objects, &splitter)
    }

    /// Builds the accelerator with the given splitter.
    pub fn new_with_splitter<S: BVHSplitter>(objects: &mut Vec<BoundedObject>, splitter: &S) -> (r:
        BVHAccelerator)
        requires
            splitter.wf(),
            old(objects)@.len() <= COUNT_LIMIT,
            forall|j: int| 0 <= j < old(objects)@.len() ==> object_wf(#[trigger] old(objects)@[j]),
        ensures
            final(objects)@.len() == old(objects)@.len(),
            final(objects)@.to_multiset() == old(objects)@.to_multiset(),
            forall|j: int|
                0 <= j < final(objects)@.len() ==> object_wf(#[trigger] final(objects)@[j]),
            r.wf_for(final(objects)@),
    {
        let mut tree = Vec::<BVHTree>::new();
        if objects.len() == 0 {
            return BVHAccelerator { nodes: tree };
        }
        let len = objects.len();
        let num_nodes = build_tree(&mut tree, 0, objects, 0, len, splitter);
        proof {
            assert(objects@.subrange(0, len as int) =~= objects@);
            assert(old(objects)@.subrange(0, len as int) =~= old(objects)@);
        }
        BVHAccelerator { nodes: tree }
    }
}

/// The leaf ranges stored in the flat index window `[a, b)`, in index order.
pub open spec fn leaves_in_span(nodes: Seq<BVHTree>, a: int, b: int) -> Seq<(usize, usize)>
    decreases b - a,
{
    if a < 0 || a >= b || a >= nodes.len() {
        Seq::empty()
    } else {
        (match nodes[a] {
            BVHTree::Leaf { start, end, .. } => seq![(start, end)],
            BVHTree::Node { .. } => Seq::empty(),
        }) + leaves_in_span(nodes, a + 1, b)
    }
}

/// The ranges in `rs` are nonempty, touch each other, and cover `[lo, hi)`
/// in ascending order.
pub open spec fn ranges_consecutive(rs: Seq<(usize, usize)>, lo: int, hi: int) -> bool {
    if rs.len() == 0 {
        lo == hi
    } else {
        &&& rs[0].0 == lo
        &&& rs[rs.len() - 1].1 == hi
        &&& (forall|k: int| 0 <= k < rs.len() ==> (#[trigger] rs[k]).0 < rs[k].1)
        &&& (forall|k: int| 0 <= k < rs.len() - 1 ==> (#[trigger] rs[k]).1 == rs[k + 1].0)
    }
}

proof fn lemma_leaves_split(nodes: Seq<BVHTree>, a: int, b: int, c: int)
    requires
        0 <= a <= b <= c,
    ensures
        leaves_in_span(nodes, a, c) == leaves_in_span(nodes, a, b) + leaves_in_span(nodes, b, c),
    decreases b - a,
{
    if a >= b {
        assert(leaves_in_span(nodes, a, b) =~= Seq::empty());
        assert(leaves_in_span(nodes, a, c) =~= leaves_in_span(nodes, a, b) + leaves_in_span(
            nodes,
            b,
            c,
        ));
    } else if a >= nodes.len() {
        lemma_leaves_empty(nodes, b, c);
        assert(leaves_in_span(nodes, a, c) =~= leaves_in_span(nodes, a, b) + leaves_in_span(
            nodes,
            b,
            c,
        ));
    } else {
        lemma_leaves_split(nodes, a + 1, b, c);
        assert(leaves_in_span(nodes, a, c) =~= leaves_in_span(nodes, a, b) + leaves_in_span(
            nodes,
            b,
            c,
        ));
    }
}

proof fn lemma_leaves_empty(nodes: Seq<BVHTree>, a: int, b: int)
    requires
        a < 0 || a >= nodes.len(),
    ensures
        leaves_in_span(nodes, a, b) == Seq::<(usize, usize)>::empty(),
{
}

/// Concatenating two consecutive coverings gives a consecutive covering.
proof fn lemma_consecutive_concat(rs1: Seq<(usize, usize)>, rs2: Seq<(usize, usize)>, lo: int, m: int, hi: int)
    requires
        ranges_consecutive(rs1, lo, m),
        ranges_consecutive(rs2, m, hi),
    ensures
        ranges_consecutive(rs1 + rs2, lo, hi),
{
    let rs = rs1 + rs2;
    if rs1.len() == 0 {
        assert(rs =~= rs2);
    } else if rs2.len() == 0 {
        assert(rs =~= rs1);
    } else {
        assert forall|k: int| 0 <= k < rs.len() implies (#[trigger] rs[k]).0 < rs[k].1 by {
            if k < rs1.len() {
                assert(rs[k] == rs1[k]);
            } else {
                assert(rs[k] == rs2[k - rs1.len()]);
            }
        }
        assert forall|k: int| 0 <= k < rs.len() - 1 implies (#[trigger] rs[k]).1 == rs[k + 1].0 by {
            if k + 1 < rs1.len() {
                assert(rs[k] == rs1[k] && rs[k + 1] == rs1[k + 1]);
            } else if k + 1 == rs1.len() {
                assert(rs[k] == rs1[k] && rs[k + 1] == rs2[0]);
                assert(rs1[rs1.len() - 1].1 == m && rs2[0].0 == m);
            } else {
                assert(rs[k] == rs2[k - rs1.len()] && rs[k + 1] == rs2[k + 1 - rs1.len()]);
            }
        }
    }
}

/// The leaves of a well-formed subtree cover its object range exactly: in
/// ascending order, without gaps or overlaps.  With the root's span this is
/// the statement that the leaf ranges of the whole accelerator partition
/// `[0, N)`.
pub proof fn lemma_leaves_partition(
    nodes: Seq<BVHTree>,
    i: int,
    lo: int,
    hi: int,
    objs: Seq<BoundedObject>,
)
    requires
        subtree_wf(nodes, i, lo, hi, objs),
    ensures
        ranges_consecutive(leaves_in_span(nodes, i, i + node_size(nodes[i])), lo, hi),
    decreases nodes.len() - i,
{
    let sz = node_size(nodes[i]);
    if nodes[i] is Leaf {
        assert(leaves_in_span(nodes, i + 1, i + 1) =~= Seq::<(usize, usize)>::empty());
        assert(ranges_consecutive(leaves_in_span(nodes, i, i + sz), lo, hi));
    } else {
        let ls = node_size(nodes[i + 1]);
        let ri = i + 1 + ls;
        let rs = node_size(nodes[ri]);
        let m = subtree_hi(nodes, i + 1);
        assert(subtree_wf(nodes, i + 1, lo, m, objs));
        assert(subtree_wf(nodes, ri, m, hi, objs));
        assert(rs >= 1) by {
            lemma_subtree_wf_size_at_least_one(nodes, ri, m, hi, objs);
        }
        lemma_leaves_partition(nodes, i + 1, lo, m, objs);
        lemma_leaves_partition(nodes, ri, m, hi, objs);
        lemma_leaves_split(nodes, i + 1, ri, i + sz);
        assert(leaves_in_span(nodes, i, i + sz) =~= leaves_in_span(nodes, i + 1, ri)
            + leaves_in_span(nodes, ri, ri + rs));
        lemma_consecutive_concat(
            leaves_in_span(nodes, i + 1, ri),
            leaves_in_span(nodes, ri, ri + rs),
            lo,
            m,
            hi,
        );
    }
}

/// When every box test answers "hit", the walk steps through every node one
/// by one and emits exactly the leaves, in index order.
pub proof fn lemma_walk_all_hits(nodes: Seq<BVHTree>, hits: Seq<bool>, a: int, b: int)
    requires
        forall|k: int| 0 <= k < hits.len() ==> #[trigger] hits[k],
        hits.len() == nodes.len(),
    ensures
        spec_walk(nodes, hits, a, b) == leaves_in_span(nodes, a, b),
    decreases b - a,
{
    if !(a < 0 || a >= b || a >= nodes.len()) {
        lemma_walk_all_hits(nodes, hits, a + 1, b);
        assert(spec_walk(nodes, hits, a, b) =~= leaves_in_span(nodes, a, b));
    }
}

/// Every node of a well-formed subtree bounds every object of the range it
/// covers; at the root this is the statement for the whole structure, and
/// the recursion in `subtree_wf` repeats it for every node below.
pub proof fn lemma_node_box_bounds(
    nodes: Seq<BVHTree>,
    i: int,
    lo: int,
    hi: int,
    objs: Seq<BoundedObject>,
    j: int,
)
    requires
        subtree_wf(nodes, i, lo, hi, objs),
        lo <= j < hi,
    ensures
        contains_box(node_box(nodes[i]), objs[j].bounds),
{
    broadcast use vstd::seq_lib::group_to_multiset_ensures;

    let sub = objs.subrange(lo, hi);
    assert(sub[j - lo] == objs[j]);
    assert(sub.contains(objs[j]));
    assert(sub.to_multiset().count(objs[j]) > 0);
}

/// Both children of a well-formed internal node are well-formed subtrees;
/// with this, `lemma_node_box_bounds` reaches every node of the structure.
pub proof fn lemma_subtree_wf_children(
    nodes: Seq<BVHTree>,
    i: int,
    lo: int,
    hi: int,
    objs: Seq<BoundedObject>,
)
    requires
        subtree_wf(nodes, i, lo, hi, objs),
        nodes[i] is Node,
    ensures
        subtree_wf(nodes, i + 1, lo, subtree_hi(nodes, i + 1), objs),
        subtree_wf(
            nodes,
            i + 1 + node_size(nodes[i + 1]),
            subtree_hi(nodes, i + 1),
            hi,
            objs,
        ),
        lo < subtree_hi(nodes, i + 1) < hi,
{
}

/// With every box test answering "hit", a traversal of a well-built
/// accelerator emits each leaf exactly once, in order, and the emitted
/// ranges cover the object indices `[0, N)` without gaps or overlaps.
pub proof fn lemma_traversal_partitions(
    acc: &BVHAccelerator,
    hits: Seq<bool>,
    objs: Seq<BoundedObject>,
)
    requires
        acc.wf_for(objs),
        hits.len() == acc.spec_nodes().len(),
        forall|k: int| 0 <= k < hits.len() ==> #[trigger] hits[k],
    ensures
        spec_walk(acc.spec_nodes(), hits, 0, acc.spec_nodes().len() as int) == leaves_in_span(
            acc.spec_nodes(),
            0,
            acc.spec_nodes().len() as int,
        ),
        ranges_consecutive(
            spec_walk(acc.spec_nodes(), hits, 0, acc.spec_nodes().len() as int),
            0,
            objs.len() as int,
        ),
{
    let nodes = acc.spec_nodes();
    lemma_walk_all_hits(nodes, hits, 0, nodes.len() as int);
    if objs.len() == 0 {
        assert(spec_walk(nodes, hits, 0, 0) =~= Seq::<(usize, usize)>::empty());
    } else {
        lemma_leaves_partition(nodes, 0, 0, objs.len() as int, objs);
    }
}

proof fn lemma_consecutive_lower(rs: Seq<(usize, usize)>, lo: int, hi: int, k: int)
    requires
        ranges_consecutive(rs, lo, hi),
        0 <= k < rs.len(),
    ensures
        lo <= rs[k].0,
    decreases k,
{
    if k > 0 {
        lemma_consecutive_lower(rs, lo, hi, k - 1);
        assert(rs[k - 1].1 == rs[k].0);
        assert(rs[k - 1].0 < rs[k - 1].1);
    }
}

proof fn lemma_consecutive_upper(rs: Seq<(usize, usize)>, lo: int, hi: int, k: int)
    requires
        ranges_consecutive(rs, lo, hi),
        0 <= k < rs.len(),
    ensures
        rs[k].1 <= hi,
    decreases rs.len() - k,
{
    if k < rs.len() - 1 {
        lemma_consecutive_upper(rs, lo, hi, k + 1);
        assert(rs[k].1 == rs[k + 1].0);
        assert(rs[k + 1].0 < rs[k + 1].1);
    }
}

/// Whatever the box tests answered, the walk only ever emits leaf ranges
/// that are already laid out in the flat array.
proof fn lemma_walk_emits_leaves(
    nodes: Seq<BVHTree>,
    hits: Seq<bool>,
    a: int,
    b: int,
    r: (usize, usize),
)
    requires
        0 <= a,
        spec_walk(nodes, hits, a, b).contains(r),
    ensures
        leaves_in_span(nodes, a, b).contains(r),
    decreases b - a,
{
    if !(a < 0 || a >= b || a >= nodes.len()) {
        match nodes[a] {
            BVHTree::Leaf { start, end, .. } => {
                if r == ((start, end)) && hits[a] {
                    assert(leaves_in_span(nodes, a, b)[0] == r);
                } else {
                    let tail = spec_walk(nodes, hits, a + 1, b);
                    assert(tail.contains(r)) by {
                        let head: Seq<(usize, usize)> = if hits[a] {
                            seq![(start, end)]
                        } else {
                            Seq::empty()
                        };
                        let idx = choose|idx: int|
                            0 <= idx < spec_walk(nodes, hits, a, b).len() && spec_walk(
                                nodes,
                                hits,
                                a,
                                b,
                            )[idx] == r;
                        assert(tail[idx - head.len()] == r);
                    }
                    lemma_walk_emits_leaves(nodes, hits, a + 1, b, r);
                    let leaves_tail = leaves_in_span(nodes, a + 1, b);
                    let lidx = choose|lidx: int|
                        0 <= lidx < leaves_tail.len() && leaves_tail[lidx] == r;
                    assert(leaves_in_span(nodes, a, b)[lidx + 1] == r);
                }
            },
            BVHTree::Node { number_of_nodes, .. } => {
                let step = if number_of_nodes < 1 {
                    1
                } else {
                    number_of_nodes as int
                };
                let next = if hits[a] {
                    a + 1
                } else if a + step > b {
                    b
                } else {
                    a + step
                };
                assert(spec_walk(nodes, hits, next, b).contains(r));
                lemma_walk_emits_leaves(nodes, hits, next, b, r);
                lemma_leaves_split(nodes, a, next, b);
                let leaves_tail = leaves_in_span(nodes, next, b);
                let lidx = choose|lidx: int|
                    0 <= lidx < leaves_tail.len() && leaves_tail[lidx] == r;
                assert(leaves_in_span(nodes, a, b)[leaves_in_span(nodes, a, next).len() + lidx]
                    == r);
            },
        }
    }
}

/// Every range a traversal of a well-built accelerator emits is a nonempty
/// range of valid object indices, however the box tests came out; probing
/// the returned ranges can therefore never step outside the object array.
pub proof fn lemma_traversal_ranges_in_bounds(
    acc: &BVHAccelerator,
    hits: Seq<bool>,
    objs: Seq<BoundedObject>,
)
    requires
        acc.wf_for(objs),
        hits.len() == acc.spec_nodes().len(),
    ensures
        forall|k: int|
            0 <= k < spec_walk(acc.spec_nodes(), hits, 0, acc.spec_nodes().len() as int).len()
                ==> {
                let r = #[trigger] spec_walk(
                    acc.spec_nodes(),
                    hits,
                    0,
                    acc.spec_nodes().len() as int,
                )[k];
                r.0 < r.1 <= objs.len()
            },
{
    let nodes = acc.spec_nodes();
    let walk = spec_walk(nodes, hits, 0, nodes.len() as int);
    let leaves = leaves_in_span(nodes, 0, nodes.len() as int);
    assert forall|k: int| 0 <= k < walk.len() implies {
        let r = #[trigger] walk[k];
        r.0 < r.1 <= objs.len()
    } by {
        let r = walk[k];
        assert(walk.contains(r));
        lemma_walk_emits_leaves(nodes, hits, 0, nodes.len() as int, r);
        if objs.len() == 0 {
            assert(leaves.len() == 0);
        } else {
            lemma_leaves_partition(nodes, 0, 0, objs.len() as int, objs);
            let lidx = choose|lidx: int| 0 <= lidx < leaves.len() && leaves[lidx] == r;
            lemma_consecutive_lower(leaves, 0, objs.len() as int, lidx);
            lemma_consecutive_upper(leaves, 0, objs.len() as int, lidx);
        }
    }
}

} // verus!
