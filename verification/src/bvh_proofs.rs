//! What the tree guarantees: that traversal finds what a scan of all
//! primitives finds, and that sampling lands on every leaf in proportion to
//! its area.
use crate::bound::{b3_contains, slab_far, slab_near, B3};
use crate::bvh::{
    all_wf, box_hit, covers, leaf_indices, lemma_node_hit_source, node_hit, BVHAccel, BVHBuildNode,
    BVHPrimitiveInfo,
};
use crate::fixed::{fx_div, fx_mul, fx_sub, trunc_div, RAW_MAX, SCALE};
use crate::intersection::no_hit;
use crate::objects::{Object, D3};
use crate::ray::{direction_signs, v3_recip, Ray, R3};
use crate::render::{lemma_nearest_among, nearest_among};
use crate::vector::v3_axis;
use vstd::prelude::*;

verus! {

/// Rounding a quotient toward zero keeps the order of the dividends.
pub proof fn lemma_trunc_div_monotone(x: int, y: int, d: int)
    requires
        x <= y,
        d > 0,
    ensures
        trunc_div(x, d) <= trunc_div(y, d),
{
    if x >= 0 {
        assert(x / d <= y / d) by (nonlinear_arith)
            requires
                0 <= x <= y,
                d > 0,
        ;
    } else if y >= 0 {
        assert((-x) / d >= 0) by (nonlinear_arith)
            requires
                -x > 0,
                d > 0,
        ;
        assert(y / d >= 0) by (nonlinear_arith)
            requires
                y >= 0,
                d > 0,
        ;
    } else {
        assert((-y) / d <= (-x) / d) by (nonlinear_arith)
            requires
                0 < -y <= -x,
                d > 0,
        ;
    }
}

/// A product grows with its first factor where the second is not negative,
/// and falls where the second is not positive.
pub proof fn lemma_mul_monotone(a1: int, a2: int, c: int)
    requires
        a1 <= a2,
    ensures
        c >= 0 ==> fx_mul(a1, c) <= fx_mul(a2, c),
        c <= 0 ==> fx_mul(a1, c) >= fx_mul(a2, c),
{
    if c >= 0 {
        assert(a1 * c <= a2 * c) by (nonlinear_arith)
            requires
                a1 <= a2,
                c >= 0,
        ;
        lemma_trunc_div_monotone(a1 * c, a2 * c, SCALE as int);
    }
    if c <= 0 {
        assert(a2 * c <= a1 * c) by (nonlinear_arith)
            requires
                a1 <= a2,
                c <= 0,
        ;
        lemma_trunc_div_monotone(a2 * c, a1 * c, SCALE as int);
    }
}

/// The reciprocal of a direction that points down an axis is not positive,
/// and that of any other direction is not negative.
pub proof fn lemma_recip_sign(d: int)
    ensures
        d < 0 ==> fx_div(SCALE as int, d) <= 0,
        d >= 0 ==> fx_div(SCALE as int, d) >= 0,
{
    let n = SCALE * SCALE;
    if d < 0 {
        assert(n / (-d) >= 0) by (nonlinear_arith)
            requires
                n >= 0,
                -d > 0,
        ;
    } else if d > 0 {
        assert(n / d >= 0) by (nonlinear_arith)
            requires
                n >= 0,
                d > 0,
        ;
    }
}

/// On one axis, a wider slab is entered no later and left no sooner.
proof fn lemma_slab_axis(inner: B3, outer: B3, ray: R3, axis: int)
    requires
        b3_contains(outer, inner),
        ray.inv == v3_recip(ray.direction),
        0 <= axis <= 2,
    ensures
        slab_near(outer, ray.origin, ray.inv, direction_signs(ray.direction), axis) <= slab_near(
            inner,
            ray.origin,
            ray.inv,
            direction_signs(ray.direction),
            axis,
        ),
        slab_far(inner, ray.origin, ray.inv, direction_signs(ray.direction), axis) <= slab_far(
            outer,
            ray.origin,
            ray.inv,
            direction_signs(ray.direction),
            axis,
        ),
{
    let d = v3_axis(ray.direction, axis);
    let inv = v3_axis(ray.inv, axis);
    let o = v3_axis(ray.origin, axis);
    lemma_recip_sign(d);
    assert(inv == fx_div(SCALE as int, d));
    assert(direction_signs(ray.direction)[axis] == (d < 0));
    lemma_mul_monotone(
        fx_sub(v3_axis(outer.lo, axis), o),
        fx_sub(v3_axis(inner.lo, axis), o),
        inv,
    );
    lemma_mul_monotone(
        fx_sub(v3_axis(inner.hi, axis), o),
        fx_sub(v3_axis(outer.hi, axis), o),
        inv,
    );
}

/// A ray that passes the slab test of a box passes that of every box
/// around it.
pub proof fn lemma_box_monotone(inner: B3, outer: B3, ray: R3)
    requires
        b3_contains(outer, inner),
        ray.inv == v3_recip(ray.direction),
        box_hit(inner, ray),
    ensures
        box_hit(outer, ray),
{
    lemma_slab_axis(inner, outer, ray, 0);
    lemma_slab_axis(inner, outer, ray, 1);
    lemma_slab_axis(inner, outer, ray, 2);
}

/// The box of a node contains the box of every primitive under it.
pub proof fn lemma_node_contains_leaves<T: Object>(node: BVHBuildNode, prims: Seq<T>, k: int)
    requires
        covers(node, prims),
        node.consistent(),
        leaf_indices(node).contains(k),
    ensures
        0 <= k < prims.len(),
        b3_contains(node.bounds()@, prims[k].bounds()),
    decreases node,
{
    let index_of = |info: BVHPrimitiveInfo| info.index as int;
    match node {
        BVHBuildNode::Leaf { obj, .. } => {
            let w = choose|w: int| 0 <= w < leaf_indices(node).len() && leaf_indices(node)[w] == k;
            assert(leaf_indices(node)[w] == obj);
        },
        BVHBuildNode::Internal { left, right, .. } => {
            let l = left.leaf_infos();
            let r = right.leaf_infos();
            assert((l + r).map_values(index_of) =~= l.map_values(index_of) + r.map_values(
                index_of,
            ));
            let w = choose|w: int| 0 <= w < leaf_indices(node).len() && leaf_indices(node)[w] == k;
            if w < l.len() {
                assert(leaf_indices(*left)[w] == k);
                lemma_node_contains_leaves(*left, prims, k);
            } else {
                assert(leaf_indices(*right)[w - l.len()] == k);
                lemma_node_contains_leaves(*right, prims, k);
            }
        },
    }
}

/// The ray passes the slab test of the box of every primitive that it
/// hits.
pub open spec fn boxes_admit_hits<T: Object>(prims: Seq<T>, ray: R3) -> bool {
    forall|i: int|
        0 <= i < prims.len() && (#[trigger] prims[i]).hit(ray).happened ==> box_hit(
            prims[i].bounds(),
            ray,
        )
}

/// What a ray finds under a node is the hit of a primitive under the node
/// that no hit of another primitive under the node undercuts.
pub proof fn lemma_node_hit_nearest<T: Object>(node: BVHBuildNode, prims: Seq<T>, ray: R3)
    requires
        covers(node, prims),
        node.consistent(),
        all_wf(prims),
        ray.inv == v3_recip(ray.direction),
        boxes_admit_hits(prims, ray),
    ensures
        node_hit(node, prims, ray).happened ==> exists|k: int|
            leaf_indices(node).contains(k) && node_hit(node, prims, ray)
                == (#[trigger] prims[k]).hit(ray),
        forall|k: int|
            leaf_indices(node).contains(k) && (#[trigger] prims[k]).hit(ray).happened ==> node_hit(
                node,
                prims,
                ray,
            ).happened && node_hit(node, prims, ray).distance <= prims[k].hit(ray).distance,
    decreases node,
{
    let found = node_hit(node, prims, ray);
    let index_of = |info: BVHPrimitiveInfo| info.index as int;
    assert forall|k: int|
        leaf_indices(node).contains(k) && (#[trigger] prims[k]).hit(ray).happened implies box_hit(
        node.bounds()@,
        ray,
    ) by {
        lemma_node_contains_leaves(node, prims, k);
        lemma_box_monotone(prims[k].bounds(), node.bounds()@, ray);
    }
    match node {
        BVHBuildNode::Leaf { obj, .. } => {
            assert(leaf_indices(node) =~= seq![obj as int]);
            assert(leaf_indices(node)[0] == obj);
            assert forall|k: int| leaf_indices(node).contains(k) implies k == obj by {
                let w = choose|w: int|
                    0 <= w < leaf_indices(node).len() && leaf_indices(node)[w] == k;
            }
        },
        BVHBuildNode::Internal { left, right, .. } => {
            let l = left.leaf_infos();
            let r = right.leaf_infos();
            assert((l + r).map_values(index_of) =~= l.map_values(index_of) + r.map_values(
                index_of,
            ));
            lemma_node_hit_nearest(*left, prims, ray);
            lemma_node_hit_nearest(*right, prims, ray);
            let lh = node_hit(*left, prims, ray);
            let rh = node_hit(*right, prims, ray);
            assert forall|k: int| leaf_indices(node).contains(k) implies leaf_indices(
                *left,
            ).contains(k) || leaf_indices(*right).contains(k) by {
                let w = choose|w: int|
                    0 <= w < leaf_indices(node).len() && leaf_indices(node)[w] == k;
                if w < l.len() {
                    assert(leaf_indices(*left)[w] == k);
                } else {
                    assert(leaf_indices(*right)[w - l.len()] == k);
                }
            }
            if found.happened {
                if found == lh {
                    let k = choose|k: int|
                        leaf_indices(*left).contains(k) && lh == (#[trigger] prims[k]).hit(ray);
                    let w = choose|w: int|
                        0 <= w < leaf_indices(*left).len() && leaf_indices(*left)[w] == k;
                    assert(leaf_indices(node)[w] == k);
                } else {
                    let k = choose|k: int|
                        leaf_indices(*right).contains(k) && rh == (#[trigger] prims[k]).hit(ray);
                    let w = choose|w: int|
                        0 <= w < leaf_indices(*right).len() && leaf_indices(*right)[w] == k;
                    assert(leaf_indices(node)[l.len() + w] == k);
                }
            }
        },
    }
}

/// For a ray that passes the box of every primitive that it hits, the tree
/// finds what a scan of all primitives finds: nothing if no primitive is
/// hit, and else a hit at the smallest ray parameter at which any primitive
/// is hit.
pub proof fn lemma_traversal_matches_scan<T: Object>(accel: BVHAccel, prims: Seq<T>, ray: Ray)
    requires
        accel.wf_for(prims),
        all_wf(prims),
        ray.wf(),
        boxes_admit_hits(prims, ray@),
    ensures
        match nearest_among(prims, ray@, prims.len() as int) {
            None => accel.hit(prims, ray@) == no_hit(),
            Some((k, distance)) => accel.hit(prims, ray@).happened && accel.hit(
                prims,
                ray@,
            ).distance == distance,
        },
{
    broadcast use vstd::seq_lib::group_to_multiset_ensures;

    lemma_nearest_among(prims, ray@, prims.len() as int);
    match accel.root {
        None => {},
        Some(root) => {
            let all = Seq::new(prims.len(), |i: int| i);
            lemma_node_hit_nearest(root, prims, ray@);
            lemma_node_hit_source(root, prims, ray@);
            assert forall|k: int| 0 <= k < prims.len() implies leaf_indices(root).contains(k) by {
                assert(all[k] == k);
                assert(all.contains(k));
                assert(all.to_multiset().count(k) > 0);
            }
            assert forall|k: int| leaf_indices(root).contains(k) implies 0 <= k < prims.len() by {
                assert(leaf_indices(root).to_multiset().count(k) > 0);
                assert(all.contains(k));
            }
        },
    }
}

/// Sum of the areas of the first `j` primitives of `infos`.
pub open spec fn area_before(infos: Seq<BVHPrimitiveInfo>, j: int) -> int
    decreases j,
{
    if j <= 0 {
        0
    } else {
        area_before(infos, j - 1) + infos[j - 1].area@
    }
}

/// No primitive of `infos` has a negative area.
pub open spec fn areas_nonnegative(infos: Seq<BVHPrimitiveInfo>) -> bool {
    forall|j: int| 0 <= j < infos.len() ==> (#[trigger] infos[j]).area@ >= 0
}

/// Position, from the left, of the leaf under `node` that the position `p`
/// within the node's area is handed down to.
pub open spec fn chosen_leaf(node: BVHBuildNode, p: int) -> int
    decreases node,
{
    match node {
        BVHBuildNode::Leaf { .. } => 0,
        BVHBuildNode::Internal { left, right, .. } => if p < left.area()@ {
            chosen_leaf(*left, p)
        } else {
            left.leaf_infos().len() + chosen_leaf(*right, fx_sub(p, left.area()@))
        },
    }
}

/// The sum of the first areas of a list is the same in every list that
/// starts with it.
proof fn lemma_area_before_prefix(a: Seq<BVHPrimitiveInfo>, b: Seq<BVHPrimitiveInfo>, j: int)
    requires
        0 <= j <= a.len(),
    ensures
        area_before(a + b, j) == area_before(a, j),
    decreases j,
{
    if j > 0 {
        lemma_area_before_prefix(a, b, j - 1);
        assert((a + b)[j - 1] == a[j - 1]);
    }
}

/// The sum of the areas up to a place in the second of two joined lists is
/// the sum of the first list and of the second list up to that place.
proof fn lemma_area_before_suffix(a: Seq<BVHPrimitiveInfo>, b: Seq<BVHPrimitiveInfo>, j: int)
    requires
        0 <= j <= b.len(),
    ensures
        area_before(a + b, a.len() + j) == area_before(a, a.len() as int) + area_before(b, j),
    decreases j,
{
    if j > 0 {
        lemma_area_before_suffix(a, b, j - 1);
        assert((a + b)[a.len() + j - 1] == b[j - 1]);
    } else {
        lemma_area_before_prefix(a, b, a.len() as int);
    }
}

/// The sums of the first areas grow with the number of areas.
pub proof fn lemma_area_before_grows(infos: Seq<BVHPrimitiveInfo>, i: int, j: int)
    requires
        areas_nonnegative(infos),
        0 <= i <= j <= infos.len(),
    ensures
        0 <= area_before(infos, i) <= area_before(infos, j),
    decreases j,
{
    if i < j {
        lemma_area_before_grows(infos, i, j - 1);
        assert(infos[j - 1].area@ >= 0);
    } else if j > 0 {
        lemma_area_before_grows(infos, i - 1, j - 1);
        assert(infos[j - 1].area@ >= 0);
    }
}

/// Sampling lands on every leaf in proportion to its area. Where no leaf
/// has a negative area and the areas of all leaves together fit the raw
/// range, the area of the node is their sum, and a position `p` within that
/// area is handed down to the leaf on whose stretch it falls when the
/// leaves are laid side by side from left to right, each as wide as its
/// area. So of the positions from zero to the total, as many reach a leaf
/// as its area holds, and the shares of all leaves add up to one.
pub proof fn lemma_sampling_by_area(node: BVHBuildNode, p: int)
    requires
        node.consistent(),
        areas_nonnegative(node.leaf_infos()),
        area_before(node.leaf_infos(), node.leaf_infos().len() as int) <= RAW_MAX,
        0 <= p < node.area()@,
    ensures
        node.area()@ == area_before(node.leaf_infos(), node.leaf_infos().len() as int),
        0 <= chosen_leaf(node, p) < node.leaf_infos().len(),
        area_before(node.leaf_infos(), chosen_leaf(node, p)) <= p < area_before(
            node.leaf_infos(),
            chosen_leaf(node, p) + 1,
        ),
    decreases node,
{
    lemma_area_is_sum(node);
    match node {
        BVHBuildNode::Leaf { .. } => {
            assert(area_before(node.leaf_infos(), 0) == 0);
        },
        BVHBuildNode::Internal { left, right, .. } => {
            let l = left.leaf_infos();
            let r = right.leaf_infos();
            lemma_split_areas(*left, *right);
            lemma_area_is_sum(*left);
            lemma_area_is_sum(*right);
            if p < left.area()@ {
                lemma_sampling_by_area(*left, p);
                let j = chosen_leaf(*left, p);
                lemma_area_before_prefix(l, r, j);
                lemma_area_before_prefix(l, r, j + 1);
            } else {
                let rest = fx_sub(p, left.area()@);
                lemma_sampling_by_area(*right, rest);
                let j = chosen_leaf(*right, rest);
                lemma_area_before_suffix(l, r, j);
                lemma_area_before_suffix(l, r, j + 1);
            }
        },
    }
}

/// The leaves of two siblings have no negative area and sums that fit the
/// raw range, if those of their parent do.
proof fn lemma_split_areas(left: BVHBuildNode, right: BVHBuildNode)
    requires
        areas_nonnegative(left.leaf_infos() + right.leaf_infos()),
        area_before(
            left.leaf_infos() + right.leaf_infos(),
            (left.leaf_infos() + right.leaf_infos()).len() as int,
        ) <= RAW_MAX,
    ensures
        areas_nonnegative(left.leaf_infos()),
        areas_nonnegative(right.leaf_infos()),
        0 <= area_before(left.leaf_infos(), left.leaf_infos().len() as int),
        0 <= area_before(right.leaf_infos(), right.leaf_infos().len() as int),
        area_before(left.leaf_infos(), left.leaf_infos().len() as int) + area_before(
            right.leaf_infos(),
            right.leaf_infos().len() as int,
        ) == area_before(
            left.leaf_infos() + right.leaf_infos(),
            (left.leaf_infos() + right.leaf_infos()).len() as int,
        ),
{
    let l = left.leaf_infos();
    let r = right.leaf_infos();
    assert forall|j: int| 0 <= j < l.len() implies (#[trigger] l[j]).area@ >= 0 by {
        assert((l + r)[j] == l[j]);
    }
    assert forall|j: int| 0 <= j < r.len() implies (#[trigger] r[j]).area@ >= 0 by {
        assert((l + r)[l.len() + j] == r[j]);
    }
    lemma_area_before_suffix(l, r, r.len() as int);
    lemma_area_before_grows(l, 0, l.len() as int);
    lemma_area_before_grows(r, 0, r.len() as int);
}

/// The area of a node is the sum of the areas of its leaves, where none of
/// these is negative and their sum fits the raw range.
pub proof fn lemma_area_is_sum(node: BVHBuildNode)
    requires
        node.consistent(),
        areas_nonnegative(node.leaf_infos()),
        area_before(node.leaf_infos(), node.leaf_infos().len() as int) <= RAW_MAX,
    ensures
        node.area()@ == area_before(node.leaf_infos(), node.leaf_infos().len() as int),
    decreases node,
{
    match node {
        BVHBuildNode::Leaf { .. } => {
            assert(area_before(node.leaf_infos(), 0) == 0);
        },
        BVHBuildNode::Internal { left, right, .. } => {
            lemma_split_areas(*left, *right);
            lemma_area_is_sum(*left);
            lemma_area_is_sum(*right);
        },
    }
}

/// The position `p` reaches the leaf at place `j` exactly if it falls on
/// that leaf's stretch.
pub proof fn lemma_sampling_stretch(node: BVHBuildNode, p: int, j: int)
    requires
        node.consistent(),
        areas_nonnegative(node.leaf_infos()),
        area_before(node.leaf_infos(), node.leaf_infos().len() as int) <= RAW_MAX,
        0 <= p < node.area()@,
        0 <= j < node.leaf_infos().len(),
    ensures
        chosen_leaf(node, p) == j <==> area_before(node.leaf_infos(), j) <= p < area_before(
            node.leaf_infos(),
            j + 1,
        ),
{
    let infos = node.leaf_infos();
    let c = chosen_leaf(node, p);
    lemma_sampling_by_area(node, p);
    if c < j {
        lemma_area_before_grows(infos, c + 1, j);
    } else if j < c {
        lemma_area_before_grows(infos, j + 1, c);
    }
}

/// The point that sampling draws under a node comes from the primitive of
/// the leaf that the position reaches: that primitive draws it, with the
/// position's place within the leaf's stretch, as a fraction of the leaf's
/// area, for its own choice, and the density is multiplied by the leaf's
/// area.
pub proof fn lemma_sample_from_chosen_leaf<T: Object>(
    node: BVHBuildNode,
    prims: Seq<T>,
    p: int,
    draws: D3,
)
    requires
        node.consistent(),
        areas_nonnegative(node.leaf_infos()),
        area_before(node.leaf_infos(), node.leaf_infos().len() as int) <= RAW_MAX,
        0 <= p < node.area()@,
    ensures
        crate::bvh::node_sample(node, prims, p, draws) == ({
            let j = chosen_leaf(node, p);
            let info = node.leaf_infos()[j];
            let (pos, pdf) = prims[info.index as int].sample_point(
                D3 {
                    pick: fx_div(p - area_before(node.leaf_infos(), j), info.area@),
                    u1: draws.u1,
                    u2: draws.u2,
                },
            );
            (pos, fx_mul(pdf, info.area@))
        }),
    decreases node,
{
    lemma_sampling_by_area(node, p);
    match node {
        BVHBuildNode::Leaf { .. } => {
            assert(area_before(node.leaf_infos(), 0) == 0);
        },
        BVHBuildNode::Internal { left, right, .. } => {
            let l = left.leaf_infos();
            let r = right.leaf_infos();
            lemma_split_areas(*left, *right);
            lemma_area_is_sum(*left);
            lemma_area_is_sum(*right);
            lemma_area_is_sum(node);
            if p < left.area()@ {
                lemma_sampling_by_area(*left, p);
                lemma_sample_from_chosen_leaf(*left, prims, p, draws);
                let j = chosen_leaf(*left, p);
                lemma_area_before_prefix(l, r, j);
                assert((l + r)[j] == l[j]);
            } else {
                let rest = fx_sub(p, left.area()@);
                lemma_sampling_by_area(*right, rest);
                lemma_sample_from_chosen_leaf(*right, prims, rest, draws);
                let j = chosen_leaf(*right, rest);
                lemma_area_before_suffix(l, r, j);
                assert((l + r)[l.len() + j] == r[j]);
            }
        },
    }
}

/// Number of inner nodes on the longest way from the node to a leaf.
pub open spec fn height(node: BVHBuildNode) -> nat
    decreases node,
{
    match node {
        BVHBuildNode::Leaf { .. } => 0,
        BVHBuildNode::Internal { left, right, .. } => if height(*left) >= height(*right) {
            height(*left) + 1
        } else {
            height(*right) + 1
        },
    }
}

/// Two to the power `n`.
pub open spec fn two_to(n: nat) -> nat
    decreases n,
{
    if n == 0 {
        1
    } else {
        2 * two_to((n - 1) as nat)
    }
}

/// A tree that divides at the median is balanced: over two or more
/// primitives, two to the power of its height is less than twice their
/// number, so that its height exceeds the binary logarithm of their number
/// by less than one.
pub proof fn lemma_median_split_is_balanced(node: BVHBuildNode)
    requires
        node.median_split(),
    ensures
        node.leaf_infos().len() == 1 ==> height(node) == 0,
        node.leaf_infos().len() >= 2 ==> two_to(height(node)) <= 2 * node.leaf_infos().len() - 2,
        node.leaf_infos().len() >= 1,
    decreases node,
{
    match node {
        BVHBuildNode::Leaf { .. } => {},
        BVHBuildNode::Internal { left, right, .. } => {
            lemma_median_split_is_balanced(*left);
            lemma_median_split_is_balanced(*right);
            let l = left.leaf_infos().len();
            let r = right.leaf_infos().len();
            assert(l == (l + r) / 2);
            assert(two_to(0) == 1);
            assert(two_to(1) == 2 * two_to(0));
        },
    }
}

} // verus!
