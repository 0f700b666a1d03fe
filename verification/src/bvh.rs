//! Bounding-volume hierarchy: a binary tree of nested boxes over the
//! primitives of a scene, built by splitting at the median of the centroids.
use crate::bound::{
    b3_centroid, b3_diagonal, b3_empty, b3_hit_by, b3_union, b3_union_point, max_axis, union,
    union_point, Bound3, B3,
};
use crate::fixed::{fx_add, fx_div, fx_mul, fx_sub, Fixed};
use crate::intersection::{no_hit, Hit, Intersection};
use crate::objects::{draw_sample, uniform_draws, Object, SampleDraws, D3};
use crate::ray::{direction_signs, Ray, R3};
use crate::vector::{v3_axis, Vector3, V3};
use vstd::prelude::*;

verus! {

/// What the construction of the tree reads of one primitive: its position
/// in the list of primitives, its box and its area.
#[derive(Clone, Copy, Debug)]
pub struct BVHPrimitiveInfo {
    pub index: usize,
    pub bounds: Bound3,
    pub area: Fixed,
}

/// How a node's primitives are divided among its children.
#[derive(Clone, Copy, Debug, PartialEq, Eq, Structural)]
pub enum SplitMethod {
    NAIVE,
    SAH,
}

/// A node of the tree: a leaf with one primitive, or an inner node with two
/// children, whose box is the union of theirs and whose area is their sum.
#[derive(Debug)]
pub enum BVHBuildNode {
    Leaf { bounds: Bound3, area: Fixed, obj: usize },
    Internal { bounds: Bound3, area: Fixed, left: Box<BVHBuildNode>, right: Box<BVHBuildNode> },
}

/// Centroid of a primitive's box.
pub open spec fn centroid_of(info: BVHPrimitiveInfo) -> V3 {
    b3_centroid(info.bounds@)
}

/// The smallest box around the centroids of `infos`; the empty box if there
/// are none.
pub open spec fn centroid_box(infos: Seq<BVHPrimitiveInfo>) -> B3
    decreases infos.len(),
{
    if infos.len() == 0 {
        b3_empty()
    } else {
        b3_union_point(centroid_box(infos.drop_last()), centroid_of(infos.last()))
    }
}

/// The axis along which the centroids of `infos` spread the most.
pub open spec fn split_axis(infos: Seq<BVHPrimitiveInfo>) -> int {
    max_axis(b3_diagonal(centroid_box(infos)))
}

/// Coordinate of a primitive's centroid on `axis`.
pub open spec fn centroid_key(info: BVHPrimitiveInfo, axis: int) -> int {
    v3_axis(centroid_of(info), axis)
}

/// Lexicographic order of pairs.
pub open spec fn pair_le(a: (i64, usize), b: (i64, usize)) -> bool {
    a.0 < b.0 || (a.0 == b.0 && a.1 <= b.1)
}

/// The leaf that holds the primitive `info`.
pub open spec fn leaf_of(info: BVHPrimitiveInfo) -> BVHBuildNode {
    BVHBuildNode::Leaf { bounds: info.bounds, area: info.area, obj: info.index }
}

impl BVHBuildNode {
    /// The node is an inner node whose children are the leaves of `first`,
    /// on the left, and of `second`.
    pub open spec fn is_pair_of(self, first: BVHPrimitiveInfo, second: BVHPrimitiveInfo) -> bool {
        match self {
            BVHBuildNode::Leaf { .. } => false,
            BVHBuildNode::Internal { left, right, .. } => *left == leaf_of(first) && *right
                == leaf_of(second),
        }
    }

    /// The node's box.
    pub open spec fn bounds(self) -> Bound3 {
        match self {
            BVHBuildNode::Leaf { bounds, .. } => bounds,
            BVHBuildNode::Internal { bounds, .. } => bounds,
        }
    }

    /// The node's area.
    pub open spec fn area(self) -> Fixed {
        match self {
            BVHBuildNode::Leaf { area, .. } => area,
            BVHBuildNode::Internal { area, .. } => area,
        }
    }

    /// The primitives under the node, from left to right.
    pub open spec fn leaf_infos(self) -> Seq<BVHPrimitiveInfo>
        decreases self,
    {
        match self {
            BVHBuildNode::Leaf { bounds, area, obj } => seq![
                BVHPrimitiveInfo { index: obj, bounds, area },
            ],
            BVHBuildNode::Internal { left, right, .. } => left.leaf_infos() + right.leaf_infos(),
        }
    }

    /// Every inner node's box is the union of its children's boxes and its
    /// area the sum of their areas.
    pub open spec fn consistent(self) -> bool
        decreases self,
    {
        match self {
            BVHBuildNode::Leaf { .. } => true,
            BVHBuildNode::Internal { bounds, area, left, right } => {
                &&& bounds@ == b3_union(left.bounds()@, right.bounds()@)
                &&& area@ == fx_add(left.area()@, right.area()@)
                &&& left.consistent()
                &&& right.consistent()
            },
        }
    }

    /// Every inner node gives the lower half of its primitives to its left
    /// child. Where it has three or more, they are divided by the
    /// coordinate of their centroids on the axis along which these spread
    /// the most: no centroid on the left lies beyond one on the right.
    pub open spec fn median_split(self) -> bool
        decreases self,
    {
        match self {
            BVHBuildNode::Leaf { .. } => true,
            BVHBuildNode::Internal { left, right, .. } => {
                let l = left.leaf_infos();
                let r = right.leaf_infos();
                let n = l.len() + r.len();
                &&& l.len() == n / 2
                &&& n >= 3 ==> forall|i: int, j: int|
                    0 <= i < l.len() && 0 <= j < r.len() ==> centroid_key(l[i], split_axis(l + r))
                        <= centroid_key(r[j], split_axis(l + r))
                &&& left.median_split()
                &&& right.median_split()
            },
        }
    }

    /// The node's box.
    pub fn get_bounds(&self) -> (b: Bound3)
        ensures
            b == self.bounds(),
    {
        match self {
            BVHBuildNode::Leaf { bounds, .. } => *bounds,
            BVHBuildNode::Internal { bounds, .. } => *bounds,
        }
    }

    /// The node's area.
    pub fn get_area(&self) -> (a: Fixed)
        ensures
            a == self.area(),
    {
        match self {
            BVHBuildNode::Leaf { area, .. } => *area,
            BVHBuildNode::Internal { area, .. } => *area,
        }
    }
}

/// Taking one centroid out of a list and adding it to the box of the others
/// gives the box of the whole list.
proof fn lemma_centroid_box_remove(s: Seq<BVHPrimitiveInfo>, k: int)
    requires
        0 <= k < s.len(),
    ensures
        centroid_box(s) == b3_union_point(centroid_box(s.remove(k)), centroid_of(s[k])),
    decreases s.len(),
{
    if k == s.len() - 1 {
        assert(s.remove(k) =~= s.drop_last());
    } else {
        let front = s.drop_last();
        lemma_centroid_box_remove(front, k);
        assert(s.remove(k).drop_last() =~= front.remove(k));
        assert(s.remove(k).last() == s.last());
    }
}

/// The box of the centroids does not depend on the order of the list.
pub proof fn lemma_centroid_box_permutation(a: Seq<BVHPrimitiveInfo>, b: Seq<BVHPrimitiveInfo>)
    requires
        a.to_multiset() == b.to_multiset(),
    ensures
        centroid_box(a) == centroid_box(b),
    decreases a.len(),
{
    broadcast use vstd::seq_lib::group_to_multiset_ensures;
    broadcast use vstd::multiset::group_multiset_axioms;

    a.to_multiset_ensures();
    b.to_multiset_ensures();
    if a.len() == 0 {
        assert(b.len() == 0);
    } else {
        let x = a.last();
        assert(a.drop_last().push(x) =~= a);
        assert(a.to_multiset().count(x) > 0);
        assert(b.contains(x));
        let k = choose|k: int| 0 <= k < b.len() && b[k] == x;
        lemma_centroid_box_remove(b, k);
        assert(a.drop_last().to_multiset() =~= b.remove(k).to_multiset());
        lemma_centroid_box_permutation(a.drop_last(), b.remove(k));
    }
}

/// Applying a function to every element of two lists with the same elements
/// gives two lists with the same elements.
pub proof fn lemma_map_permutation<A, B>(a: Seq<A>, b: Seq<A>, f: spec_fn(A) -> B)
    requires
        a.to_multiset() == b.to_multiset(),
    ensures
        a.map_values(f).to_multiset() == b.map_values(f).to_multiset(),
    decreases a.len(),
{
    broadcast use vstd::seq_lib::group_to_multiset_ensures;
    broadcast use vstd::multiset::group_multiset_axioms;

    a.to_multiset_ensures();
    b.to_multiset_ensures();
    if a.len() == 0 {
        assert(b.len() == 0);
        assert(a.map_values(f) =~= b.map_values(f));
    } else {
        let x = a.last();
        let front = a.drop_last();
        assert(front.push(x) =~= a);
        assert(a.to_multiset().count(x) > 0);
        assert(b.contains(x));
        let k = choose|k: int| 0 <= k < b.len() && b[k] == x;
        let rest = b.remove(k);
        assert(front.to_multiset() =~= rest.to_multiset());
        lemma_map_permutation(front, rest, f);
        assert(a.map_values(f) =~= front.map_values(f).push(f(x)));
        assert(rest.map_values(f) =~= b.map_values(f).remove(k));
        assert(b.map_values(f)[k] == f(x));
        assert(b.map_values(f).to_multiset() =~= rest.map_values(f).to_multiset().insert(f(x)));
    }
}

/// `sort` of the standard library's slices, on pairs of integers: it
/// rearranges the pairs into ascending lexicographic order.
#[verifier::external_body]
fn sort_pairs(v: &mut Vec<(i64, usize)>)
    ensures
        final(v)@.to_multiset() == old(v)@.to_multiset(),
        forall|i: int, j: int|
            0 <= i < j < final(v)@.len() ==> pair_le(
                #[trigger] final(v)@[i],
                #[trigger] final(v)@[j],
            ),
{
    v.sort();
}

/// The smallest box around the centroids of `infos`.
fn centroid_bounds(infos: &Vec<BVHPrimitiveInfo>) -> (b: Bound3)
    ensures
        b@ == centroid_box(infos@),
{
    let mut bounds: Bound3 = Bound3::default();
    let mut i: usize = 0;
    while i < infos.len()
        invariant
            0 <= i <= infos.len(),
            bounds@ == centroid_box(infos@.subrange(0, i as int)),
        decreases infos.len() - i,
    {
        proof {
            let longer = infos@.subrange(0, i + 1);
            assert(longer.drop_last() =~= infos@.subrange(0, i as int));
            assert(longer.last() == infos@[i as int]);
        }
        let c: Vector3 = infos[i].bounds.centroid();
        bounds = union_point(&bounds, &c);
        i = i + 1;
    }
    proof {
        assert(infos@.subrange(0, infos@.len() as int) =~= infos@);
    }
    bounds
}

/// The primitives of `infos` in ascending order of their centroids'
/// coordinate on `axis`; primitives with the same coordinate keep their
/// order.
fn sort_by_centroid(infos: &Vec<BVHPrimitiveInfo>, axis: usize) -> (sorted: Vec<
    BVHPrimitiveInfo,
>)
    ensures
        sorted@.to_multiset() == infos@.to_multiset(),
        sorted@.len() == infos@.len(),
        forall|i: int, j: int|
            0 <= i < j < sorted@.len() ==> centroid_key(#[trigger] sorted@[i], axis as int)
                <= centroid_key(#[trigger] sorted@[j], axis as int),
{
    let n: usize = infos.len();
    let mut keys: Vec<(i64, usize)> = Vec::new();
    let mut j: usize = 0;
    while j < n
        invariant
            0 <= j <= n,
            n == infos@.len(),
            keys@.len() == j,
            forall|k: int|
                0 <= k < j ==> #[trigger] keys@[k] == (
                    centroid_key(infos@[k], axis as int) as i64,
                    k as usize,
                ),
        decreases n - j,
    {
        let c: Vector3 = infos[j].bounds.centroid();
        keys.push((c.axis(axis).raw, j));
        j = j + 1;
    }
    let ghost unsorted = keys@;
    sort_pairs(&mut keys);
    let ghost pick = |p: (i64, usize)| infos@[p.1 as int];
    proof {
        broadcast use vstd::seq_lib::group_to_multiset_ensures;

        assert(unsorted.map_values(pick) =~= infos@);
        lemma_map_permutation(keys@, unsorted, pick);
        keys@.to_multiset_ensures();
        unsorted.to_multiset_ensures();
        assert(keys@.len() == n);
        assert forall|k: int| 0 <= k < n implies (#[trigger] keys@[k]).1 < n && keys@[k].0
            == centroid_key(infos@[keys@[k].1 as int], axis as int) by {
            assert(keys@.contains(keys@[k]));
            assert(keys@.to_multiset().count(keys@[k]) > 0);
            assert(unsorted.contains(keys@[k]));
            let w = choose|w: int| 0 <= w < unsorted.len() && unsorted[w] == keys@[k];
            assert(unsorted[w] == (centroid_key(infos@[w], axis as int) as i64, w as usize));
        }
    }
    let mut sorted: Vec<BVHPrimitiveInfo> = Vec::new();
    let mut k: usize = 0;
    while k < n
        invariant
            0 <= k <= n,
            n == infos@.len(),
            keys@.len() == n,
            sorted@.len() == k,
            forall|i: int| 0 <= i < n ==> (#[trigger] keys@[i]).1 < n,
            forall|i: int| 0 <= i < k ==> #[trigger] sorted@[i] == infos@[keys@[i].1 as int],
        decreases n - k,
    {
        let position: usize = keys[k].1;
        sorted.push(infos[position]);
        k = k + 1;
    }
    proof {
        assert(sorted@ =~= keys@.map_values(pick));
        assert forall|i: int, j: int| 0 <= i < j < sorted@.len() implies centroid_key(
            #[trigger] sorted@[i],
            axis as int,
        ) <= centroid_key(#[trigger] sorted@[j], axis as int) by {
            assert(pair_le(keys@[i], keys@[j]));
        }
    }
    sorted
}

/// The lower and the upper half of the primitives in the order of their
/// centroids on the axis along which these spread the most.
pub(crate) fn halve(infos: &Vec<BVHPrimitiveInfo>) -> (sides: (
    Vec<BVHPrimitiveInfo>,
    Vec<BVHPrimitiveInfo>,
))
    requires
        infos@.len() >= 2,
    ensures
        (sides.0@ + sides.1@).to_multiset() == infos@.to_multiset(),
        sides.0@.len() == infos@.len() / 2,
        sides.0@.len() + sides.1@.len() == infos@.len(),
        forall|i: int, j: int|
            0 <= i < sides.0@.len() && 0 <= j < sides.1@.len() ==> centroid_key(
                sides.0@[i],
                split_axis(infos@),
            ) <= centroid_key(sides.1@[j], split_axis(infos@)),
{
    let n: usize = infos.len();
    let axis: usize = centroid_bounds(infos).max_extent() as usize;
    let sorted: Vec<BVHPrimitiveInfo> = sort_by_centroid(infos, axis);
    let mid: usize = n / 2;
    let mut lower: Vec<BVHPrimitiveInfo> = Vec::new();
    let mut upper: Vec<BVHPrimitiveInfo> = Vec::new();
    let mut k: usize = 0;
    while k < n
        invariant
            0 <= k <= n,
            n == sorted@.len(),
            mid == n / 2,
            k <= mid ==> lower@ == sorted@.subrange(0, k as int) && upper@.len() == 0,
            k > mid ==> lower@ == sorted@.subrange(0, mid as int) && upper@ == sorted@.subrange(
                mid as int,
                k as int,
            ),
        decreases n - k,
    {
        if k < mid {
            lower.push(sorted[k]);
            proof {
                assert(lower@ =~= sorted@.subrange(0, k + 1));
            }
        } else {
            upper.push(sorted[k]);
            proof {
                assert(upper@ =~= sorted@.subrange(mid as int, k + 1));
            }
        }
        k = k + 1;
    }
    proof {
        assert(lower@ + upper@ =~= sorted@);
    }
    (lower, upper)
}

/// Builds the tree over the primitives of `infos`. One primitive becomes a
/// leaf. Two become an inner node with the first on the left and the second
/// on the right. Three or more are put in the order of their centroids on
/// the axis along which these spread the most, and the list is cut at its
/// middle: each half becomes a child.
pub fn recursive_build(infos: Vec<BVHPrimitiveInfo>) -> (node: BVHBuildNode)
    requires
        infos@.len() >= 1,
    ensures
        node.consistent(),
        node.median_split(),
        node.leaf_infos().to_multiset() == infos@.to_multiset(),
        node.leaf_infos().len() == infos@.len(),
        infos@.len() == 1 ==> node == leaf_of(infos@[0]),
        infos@.len() == 2 ==> node.is_pair_of(infos@[0], infos@[1]),
    decreases infos@.len(),
{
    let n: usize = infos.len();
    if n == 1 {
        let info: BVHPrimitiveInfo = infos[0];
        let node = BVHBuildNode::Leaf { bounds: info.bounds, area: info.area, obj: info.index };
        proof {
            assert(node.leaf_infos() =~= infos@);
        }
        node
    } else if n == 2 {
        let first: BVHPrimitiveInfo = infos[0];
        let second: BVHPrimitiveInfo = infos[1];
        let left = BVHBuildNode::Leaf { bounds: first.bounds, area: first.area, obj: first.index };
        let right = BVHBuildNode::Leaf {
            bounds: second.bounds,
            area: second.area,
            obj: second.index,
        };
        proof {
            assert(left.leaf_infos() =~= seq![first]);
            assert(right.leaf_infos() =~= seq![second]);
            assert(left.consistent() && right.consistent());
            assert(left.median_split() && right.median_split());
        }
        let node = BVHBuildNode::Internal {
            bounds: union(&first.bounds, &second.bounds),
            area: first.area.saturating_add(second.area),
            left: Box::new(left),
            right: Box::new(right),
        };
        proof {
            assert(node.leaf_infos() =~= infos@);
        }
        node
    } else {
        let (lower, upper): (Vec<BVHPrimitiveInfo>, Vec<BVHPrimitiveInfo>) = halve(&infos);
        let ghost lo = lower@;
        let ghost hi = upper@;
        let left: BVHBuildNode = recursive_build(lower);
        let right: BVHBuildNode = recursive_build(upper);
        let node = BVHBuildNode::Internal {
            bounds: union(&left.get_bounds(), &right.get_bounds()),
            area: left.get_area().saturating_add(right.get_area()),
            left: Box::new(left),
            right: Box::new(right),
        };
        proof {
            broadcast use vstd::seq_lib::group_to_multiset_ensures;
            broadcast use vstd::multiset::group_multiset_axioms;

            let l = left.leaf_infos();
            let r = right.leaf_infos();
            vstd::seq_lib::lemma_multiset_commutative(l, r);
            vstd::seq_lib::lemma_multiset_commutative(lo, hi);
            assert((l + r).to_multiset() =~= infos@.to_multiset());
            lemma_centroid_box_permutation(l + r, infos@);
            assert forall|i: int, j: int| 0 <= i < l.len() && 0 <= j < r.len() implies centroid_key(
                l[i],
                split_axis(l + r),
            ) <= centroid_key(r[j], split_axis(l + r)) by {
                assert(l.contains(l[i]));
                assert(l.to_multiset().count(l[i]) > 0);
                assert(lo.contains(l[i]));
                let a = choose|a: int| 0 <= a < lo.len() && lo[a] == l[i];
                assert(r.contains(r[j]));
                assert(r.to_multiset().count(r[j]) > 0);
                assert(hi.contains(r[j]));
                let b = choose|b: int| 0 <= b < hi.len() && hi[b] == r[j];
            }
        }
        node
    }
}

/// Every leaf under `node` names a primitive of `prims` and carries that
/// primitive's box and area.
pub open spec fn covers<T: Object>(node: BVHBuildNode, prims: Seq<T>) -> bool
    decreases node,
{
    match node {
        BVHBuildNode::Leaf { bounds, area, obj } => {
            &&& obj < prims.len()
            &&& bounds@ == prims[obj as int].bounds()
            &&& area@ == prims[obj as int].area()
        },
        BVHBuildNode::Internal { left, right, .. } => covers(*left, prims) && covers(*right, prims),
    }
}

/// The nearer of two results: the one that happened if only one did, none
/// if neither did, and of two that happened the left one if it is strictly
/// nearer, else the right one.
pub open spec fn combine(left: Hit, right: Hit) -> Hit {
    if left.happened && !right.happened {
        left
    } else if !left.happened && right.happened {
        right
    } else if !left.happened && !right.happened {
        no_hit()
    } else if left.distance < right.distance {
        left
    } else {
        right
    }
}

/// Whether the ray passes the slab test of the box.
pub open spec fn box_hit(b: B3, ray: R3) -> bool {
    b3_hit_by(b, ray.origin, ray.inv, direction_signs(ray.direction))
}

/// What the ray finds under `node`: nothing if it misses the node's box;
/// at a leaf, what it finds of the leaf's primitive; at an inner node, the
/// nearer of what it finds under the two children.
pub open spec fn node_hit<T: Object>(node: BVHBuildNode, prims: Seq<T>, ray: R3) -> Hit
    decreases node,
{
    if !box_hit(node.bounds()@, ray) {
        no_hit()
    } else {
        match node {
            BVHBuildNode::Leaf { obj, .. } => prims[obj as int].hit(ray),
            BVHBuildNode::Internal { left, right, .. } => combine(
                node_hit(*left, prims, ray),
                node_hit(*right, prims, ray),
            ),
        }
    }
}

/// The point that the position `p` within the node's area and `draws` stand
/// for. An inner node hands `p` to its left child if `p` is less than that
/// child's area, and else `p` less that area to its right child. A leaf
/// lets its primitive draw the point, with `p` as a fraction of the leaf's
/// area for the primitive's own choice, and multiplies the density by the
/// leaf's area.
pub open spec fn node_sample<T: Object>(node: BVHBuildNode, prims: Seq<T>, p: int, draws: D3) -> (
    Hit,
    int,
)
    decreases node,
{
    match node {
        BVHBuildNode::Leaf { area, obj, .. } => {
            let (pos, pdf) = prims[obj as int].sample_point(
                D3 { pick: fx_div(p, area@), u1: draws.u1, u2: draws.u2 },
            );
            (pos, fx_mul(pdf, area@))
        },
        BVHBuildNode::Internal { left, right, .. } => if p < left.area()@ {
            node_sample(*left, prims, p, draws)
        } else {
            node_sample(*right, prims, fx_sub(p, left.area()@), draws)
        },
    }
}

/// All primitives of `prims` are well formed.
pub open spec fn all_wf<T: Object>(prims: Seq<T>) -> bool {
    forall|i: int| 0 <= i < prims.len() ==> (#[trigger] prims[i]).wf()
}

/// Nearest intersection of the ray with the primitives under `node`.
pub fn get_intersection<T: Object>(node: &BVHBuildNode, ray: &Ray, primitives: &Vec<T>) -> (r:
    Intersection)
    requires
        covers(*node, primitives@),
        all_wf(primitives@),
    ensures
        r@ == node_hit(*node, primitives@, ray@),
    decreases node,
{
    let neg: [bool; 3] = ray.dir_is_neg();
    if !node.get_bounds().intersect_ray(ray, &ray.direction_inv, &neg) {
        return Intersection::default();
    }
    match node {
        BVHBuildNode::Leaf { obj, .. } => primitives[*obj].get_intersection(ray),
        BVHBuildNode::Internal { left, right, .. } => {
            let l: Intersection = get_intersection(left, ray, primitives);
            let r: Intersection = get_intersection(right, ray, primitives);
            if l.happened && !r.happened {
                l
            } else if !l.happened && r.happened {
                r
            } else if !l.happened && !r.happened {
                Intersection::default()
            } else if l.distance.raw < r.distance.raw {
                l
            } else {
                r
            }
        },
    }
}

/// The point under `node` that the position `p` and `draws` stand for, and
/// its density before the division by the total area.
pub fn get_sample<T: Object>(
    node: &BVHBuildNode,
    p: Fixed,
    draws: &SampleDraws,
    primitives: &Vec<T>,
) -> (r: (Intersection, Fixed))
    requires
        covers(*node, primitives@),
        all_wf(primitives@),
    ensures
        (r.0@, r.1@) == node_sample(*node, primitives@, p@, draws@),
    decreases node,
{
    match node {
        BVHBuildNode::Leaf { area, obj, .. } => {
            let inner: SampleDraws = SampleDraws {
                pick: p.saturating_div(*area),
                u1: draws.u1,
                u2: draws.u2,
            };
            let (pos, pdf): (Intersection, Fixed) = primitives[*obj].sample_at(&inner);
            (pos, pdf.saturating_mul(*area))
        },
        BVHBuildNode::Internal { left, right, .. } => {
            let left_area: Fixed = left.get_area();
            if p.raw < left_area.raw {
                get_sample(left, p, draws, primitives)
            } else {
                get_sample(right, p.saturating_sub(left_area), draws, primitives)
            }
        },
    }
}

/// The positions of the primitives under `node`, from left to right.
pub open spec fn leaf_indices(node: BVHBuildNode) -> Seq<int> {
    node.leaf_infos().map_values(|info: BVHPrimitiveInfo| info.index as int)
}

/// The accelerator of a list of primitives: the root of its tree, or nothing
/// for an empty list.
#[derive(Debug)]
pub struct BVHAccel {
    pub root: Option<BVHBuildNode>,
}

impl BVHAccel {
    /// The tree belongs to `prims`: there is none exactly if there are no
    /// primitives; every primitive stands under exactly one leaf, which
    /// carries its box and area; and every inner node's box and area are
    /// the union and the sum of its children's.
    pub open spec fn wf_for<T: Object>(&self, prims: Seq<T>) -> bool {
        match self.root {
            None => prims.len() == 0,
            Some(root) => {
                &&& covers(root, prims)
                &&& root.consistent()
                &&& leaf_indices(root).to_multiset() == Seq::new(
                    prims.len(),
                    |i: int| i,
                ).to_multiset()
            },
        }
    }

    /// What the ray finds of `prims`.
    pub open spec fn hit<T: Object>(&self, prims: Seq<T>, ray: R3) -> Hit {
        match self.root {
            None => no_hit(),
            Some(root) => node_hit(root, prims, ray),
        }
    }

    /// The point of the surfaces of `prims` that `draws` stand for, and its
    /// density per unit of area: `draws.pick` times the total area is the
    /// position that is handed down the tree, and the density that comes
    /// back is divided by the total area.
    pub open spec fn sample_point<T: Object>(&self, prims: Seq<T>, draws: D3) -> (Hit, int) {
        match self.root {
            None => (no_hit(), 0),
            Some(root) => {
                let (pos, pdf) = node_sample(root, prims, fx_mul(draws.pick, root.area()@), draws);
                (pos, fx_div(pdf, root.area()@))
            },
        }
    }

    /// Builds the tree over `primitives`. The two last arguments are kept
    /// for the callers' sake: every leaf holds one primitive and every
    /// inner node divides its primitives at the median of their centroids.
    pub fn new<T: Object>(
        primitives: &Vec<T>,
        _max_prims_in_node: i32,
        _split_method: SplitMethod,
    ) -> (r: BVHAccel)
        ensures
            r.wf_for(primitives@),
            r.root is None <==> primitives@.len() == 0,
            r.root matches Some(root) ==> root.median_split(),
    {
        let n: usize = primitives.len();
        if n == 0 {
            return BVHAccel { root: None };
        }
        let infos: Vec<BVHPrimitiveInfo> = primitive_infos(primitives);
        let ghost listed = infos@;
        let root: BVHBuildNode = recursive_build(infos);
        proof {
            lemma_tree_belongs(root, listed, primitives@);
        }
        BVHAccel { root: Some(root) }
    }

    /// Nearest intersection of the ray with the primitives.
    pub fn intersect<T: Object>(&self, primitives: &Vec<T>, ray: &Ray) -> (r: Intersection)
        requires
            self.wf_for(primitives@),
            all_wf(primitives@),
        ensures
            r@ == self.hit(primitives@, ray@),
    {
        match &self.root {
            None => Intersection::default(),
            Some(root) => get_intersection(root, ray, primitives),
        }
    }

    /// The point of the surfaces that `draws` stand for, and its density per
    /// unit of area. Without primitives there is no point, and the density
    /// is zero.
    pub fn sample_at<T: Object>(&self, primitives: &Vec<T>, draws: &SampleDraws) -> (r: (
        Intersection,
        Fixed,
    ))
        requires
            self.wf_for(primitives@),
            all_wf(primitives@),
        ensures
            (r.0@, r.1@) == self.sample_point(primitives@, draws@),
    {
        match &self.root {
            None => (Intersection::default(), Fixed::zero()),
            Some(root) => {
                let area: Fixed = root.get_area();
                let p: Fixed = draws.pick.saturating_mul(area);
                let (pos, pdf): (Intersection, Fixed) = get_sample(root, p, draws, primitives);
                (pos, pdf.saturating_div(area))
            },
        }
    }

    /// A point drawn from the surfaces of the primitives, uniformly by
    /// area, and its density per unit of area.
    pub fn sample<T: Object>(&self, primitives: &Vec<T>, pos: &mut Intersection, pdf: &mut Fixed)
        requires
            self.wf_for(primitives@),
            all_wf(primitives@),
        ensures
            exists|draws: D3|
                uniform_draws(draws) && (final(pos)@, final(pdf)@) == #[trigger] self.sample_point(
                    primitives@,
                    draws,
                ),
    {
        let draws: SampleDraws = draw_sample();
        let (point, density): (Intersection, Fixed) = self.sample_at(primitives, &draws);
        *pos = point;
        *pdf = density;
    }
}

/// The primitive that `info` names exists and has the box and the area
/// that `info` carries.
pub open spec fn info_matches<T: Object>(info: BVHPrimitiveInfo, prims: Seq<T>) -> bool {
    &&& info.index < prims.len()
    &&& info.bounds@ == prims[info.index as int].bounds()
    &&& info.area@ == prims[info.index as int].area()
}

/// A tree whose leaves all match their primitives covers the primitives.
proof fn lemma_covers_from_infos<T: Object>(node: BVHBuildNode, prims: Seq<T>)
    requires
        forall|k: int|
            0 <= k < node.leaf_infos().len() ==> info_matches(
                #[trigger] node.leaf_infos()[k],
                prims,
            ),
    ensures
        covers(node, prims),
    decreases node,
{
    match node {
        BVHBuildNode::Leaf { .. } => {
            assert(info_matches(node.leaf_infos()[0], prims));
        },
        BVHBuildNode::Internal { left, right, .. } => {
            let l = left.leaf_infos();
            let r = right.leaf_infos();
            assert forall|k: int| 0 <= k < l.len() implies info_matches(#[trigger] l[k], prims) by {
                assert(node.leaf_infos()[k] == l[k]);
            }
            assert forall|k: int| 0 <= k < r.len() implies info_matches(#[trigger] r[k], prims) by {
                assert(node.leaf_infos()[l.len() + k] == r[k]);
            }
            lemma_covers_from_infos(*left, prims);
            lemma_covers_from_infos(*right, prims);
        },
    }
}

/// What a ray finds under a node is nothing at all, or a hit of one of the
/// primitives.
pub proof fn lemma_node_hit_source<T: Object>(node: BVHBuildNode, prims: Seq<T>, ray: R3)
    requires
        covers(node, prims),
        all_wf(prims),
    ensures
        !node_hit(node, prims, ray).happened ==> node_hit(node, prims, ray) == no_hit(),
        node_hit(node, prims, ray) != no_hit() ==> exists|k: int|
            0 <= k < prims.len() && node_hit(node, prims, ray) == (#[trigger] prims[k]).hit(ray),
    decreases node,
{
    match node {
        BVHBuildNode::Leaf { obj, .. } => {
            prims[obj as int].lemma_shadeable(ray, D3 { pick: 0, u1: 0, u2: 0 });
        },
        BVHBuildNode::Internal { left, right, .. } => {
            lemma_node_hit_source(*left, prims, ray);
            lemma_node_hit_source(*right, prims, ray);
        },
    }
}

/// What the construction of the tree reads of each primitive, in the order
/// of the list.
pub fn primitive_infos<T: Object>(primitives: &Vec<T>) -> (infos: Vec<BVHPrimitiveInfo>)
    ensures
        infos@.len() == primitives@.len(),
        forall|k: int|
            0 <= k < infos@.len() ==> info_matches(#[trigger] infos@[k], primitives@)
                && infos@[k].index == k,
{
    let n: usize = primitives.len();
    let mut infos: Vec<BVHPrimitiveInfo> = Vec::new();
    let mut i: usize = 0;
    while i < n
        invariant
            0 <= i <= n,
            n == primitives@.len(),
            infos@.len() == i,
            forall|k: int|
                0 <= k < i ==> info_matches(#[trigger] infos@[k], primitives@) && infos@[k].index
                    == k,
        decreases n - i,
    {
        let bounds: Bound3 = primitives[i].get_bounds();
        let area: Fixed = primitives[i].get_area();
        infos.push(BVHPrimitiveInfo { index: i, bounds, area });
        i = i + 1;
    }
    infos
}

/// A tree over the listed primitives, each under one leaf, covers the
/// primitives, and its leaves name each of them once.
pub proof fn lemma_tree_belongs<T: Object>(
    root: BVHBuildNode,
    listed: Seq<BVHPrimitiveInfo>,
    prims: Seq<T>,
)
    requires
        root.leaf_infos().to_multiset() == listed.to_multiset(),
        listed.len() == prims.len(),
        forall|k: int|
            0 <= k < listed.len() ==> info_matches(#[trigger] listed[k], prims) && listed[k].index
                == k,
    ensures
        covers(root, prims),
        leaf_indices(root).to_multiset() == Seq::new(prims.len(), |i: int| i).to_multiset(),
{
    broadcast use vstd::seq_lib::group_to_multiset_ensures;

    let leaves = root.leaf_infos();
    let index_of = |info: BVHPrimitiveInfo| info.index as int;
    assert forall|k: int| 0 <= k < leaves.len() implies info_matches(
        #[trigger] leaves[k],
        prims,
    ) by {
        assert(leaves.contains(leaves[k]));
        assert(leaves.to_multiset().count(leaves[k]) > 0);
        assert(listed.contains(leaves[k]));
    }
    lemma_covers_from_infos(root, prims);
    lemma_map_permutation(leaves, listed, index_of);
    assert(listed.map_values(index_of) =~= Seq::new(prims.len(), |i: int| i));
}

} // verus!
