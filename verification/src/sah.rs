//! Tree construction by a bucketed cost heuristic: on each axis the box of
//! the primitives is cut into buckets of equal width, and the primitives are
//! divided at the bucket boundary that the cost model likes best.
use crate::bound::{b3_empty, b3_union, union, Bound3, B3};
use crate::bvh::{
    all_wf, centroid_key, get_intersection, halve, leaf_of, lemma_centroid_box_permutation,
    lemma_tree_belongs, primitive_infos, split_axis, BVHAccel, BVHBuildNode, BVHPrimitiveInfo,
    SplitMethod,
};
use crate::intersection::{Hit, Intersection};
use crate::objects::Object;
use crate::ray::{Ray, R3};
use crate::vector::v3_axis;
use vstd::prelude::*;

verus! {

/// Number of buckets on each axis.
pub const BUCKET_COUNT: usize = 5;

/// Cost of passing through an inner node.
pub const TRAVERSAL_COST: u128 = 1;

/// Cost of testing a primitive.
pub const INTERSECTION_COST: u128 = 2;

/// Number of ways to divide: one bucket boundary on one axis.
pub const CANDIDATES: usize = 15;

/// The smallest box around the boxes of `infos`; the empty box if there are
/// none.
pub open spec fn info_box(infos: Seq<BVHPrimitiveInfo>) -> B3
    decreases infos.len(),
{
    if infos.len() == 0 {
        b3_empty()
    } else {
        b3_union(info_box(infos.drop_last()), infos.last().bounds@)
    }
}

/// The bucket, of those into which `b` is cut along `axis`, that holds the
/// centroid of `info`; the first bucket where `b` has no extent, and the
/// nearest bucket for a centroid beyond `b`.
pub open spec fn bucket_of(info: BVHPrimitiveInfo, b: B3, axis: int) -> int {
    let lo = v3_axis(b.lo, axis);
    let hi = v3_axis(b.hi, axis);
    let c = centroid_key(info, axis);
    if hi <= lo || c <= lo {
        0
    } else if c >= hi {
        BUCKET_COUNT - 1
    } else {
        ((c - lo) * BUCKET_COUNT) / (hi - lo)
    }
}

/// Number of primitives of `infos` in the buckets before bucket `k`.
pub open spec fn count_below(infos: Seq<BVHPrimitiveInfo>, b: B3, axis: int, k: int) -> int
    decreases infos.len(),
{
    if infos.len() == 0 {
        0
    } else if bucket_of(infos.last(), b, axis) < k {
        count_below(infos.drop_last(), b, axis, k) + 1
    } else {
        count_below(infos.drop_last(), b, axis, k)
    }
}

/// Cost, times the number of buckets, of dividing `n` primitives before
/// bucket `k` when `below` of them lie before it: one traversal, and for
/// each side the tests of its primitives, weighted with `(k + 1) / buckets`
/// on the lower side and with the rest on the upper side.
pub open spec fn split_cost(k: int, below: int, n: int) -> int {
    BUCKET_COUNT * TRAVERSAL_COST + (k + 1) * INTERSECTION_COST * below + (BUCKET_COUNT - k - 1)
        * INTERSECTION_COST * (n - below)
}

/// Axis of the candidate `c`.
pub open spec fn candidate_axis(c: int) -> int {
    c / (BUCKET_COUNT as int)
}

/// Bucket before which the candidate `c` divides.
pub open spec fn candidate_bucket(c: int) -> int {
    c % (BUCKET_COUNT as int)
}

/// Whether the candidate `c` leaves primitives on both sides.
pub open spec fn candidate_divides(infos: Seq<BVHPrimitiveInfo>, b: B3, c: int) -> bool {
    0 < count_below(infos, b, candidate_axis(c), candidate_bucket(c)) < infos.len()
}

/// Cost of the candidate `c`.
pub open spec fn candidate_cost(infos: Seq<BVHPrimitiveInfo>, b: B3, c: int) -> int {
    split_cost(
        candidate_bucket(c),
        count_below(infos, b, candidate_axis(c), candidate_bucket(c)),
        infos.len() as int,
    )
}

/// The cheapest of the first `upto` candidates that leave primitives on
/// both sides, and of several such the first; `None` if there is none.
pub open spec fn best_candidate(infos: Seq<BVHPrimitiveInfo>, b: B3, upto: int) -> Option<int>
    decreases upto,
{
    if upto <= 0 {
        None
    } else {
        let before = best_candidate(infos, b, upto - 1);
        if candidate_divides(infos, b, upto - 1) && (before is None || candidate_cost(
            infos,
            b,
            upto - 1,
        ) < candidate_cost(infos, b, before.unwrap())) {
            Some(upto - 1)
        } else {
            before
        }
    }
}

/// Every inner node with three or more primitives divides them at the
/// cheapest bucket boundary of their box that leaves primitives on both
/// sides: the primitives of the buckets before it go to the left. Where no
/// boundary would leave primitives on both sides, the node divides them at
/// the median of their centroids on the axis along which these spread the
/// most. An inner node with two primitives has one on each side.
pub open spec fn bucket_split(node: BVHBuildNode) -> bool
    decreases node,
{
    match node {
        BVHBuildNode::Leaf { .. } => true,
        BVHBuildNode::Internal { left, right, .. } => {
            let l = left.leaf_infos();
            let r = right.leaf_infos();
            let all = l + r;
            let b = info_box(all);
            &&& all.len() >= 3 ==> match best_candidate(all, b, CANDIDATES as int) {
                Some(c) => {
                    &&& forall|i: int|
                        0 <= i < l.len() ==> bucket_of(#[trigger] l[i], b, candidate_axis(c))
                            < candidate_bucket(c)
                    &&& forall|j: int|
                        0 <= j < r.len() ==> bucket_of(#[trigger] r[j], b, candidate_axis(c))
                            >= candidate_bucket(c)
                },
                None => {
                    &&& l.len() == all.len() / 2
                    &&& forall|i: int, j: int|
                        0 <= i < l.len() && 0 <= j < r.len() ==> centroid_key(l[i], split_axis(all))
                            <= centroid_key(r[j], split_axis(all))
                },
            }
            &&& bucket_split(*left)
            &&& bucket_split(*right)
        },
    }
}

/// Taking one box out of a list and adding it to the box of the others
/// gives the box of the whole list.
proof fn lemma_info_box_remove(s: Seq<BVHPrimitiveInfo>, k: int)
    requires
        0 <= k < s.len(),
    ensures
        info_box(s) == b3_union(info_box(s.remove(k)), s[k].bounds@),
    decreases s.len(),
{
    if k == s.len() - 1 {
        assert(s.remove(k) =~= s.drop_last());
    } else {
        let front = s.drop_last();
        lemma_info_box_remove(front, k);
        assert(s.remove(k).drop_last() =~= front.remove(k));
        assert(s.remove(k).last() == s.last());
    }
}

/// The box of the primitives does not depend on their order.
pub proof fn lemma_info_box_permutation(a: Seq<BVHPrimitiveInfo>, b: Seq<BVHPrimitiveInfo>)
    requires
        a.to_multiset() == b.to_multiset(),
    ensures
        info_box(a) == info_box(b),
    decreases a.len(),
{
    broadcast use vstd::seq_lib::group_to_multiset_ensures;
    broadcast use vstd::multiset::group_multiset_axioms;

    a.to_multiset_ensures();
    b.to_multiset_ensures();
    if a.len() == 0 {
        assert(b.len() == 0);
    } else {
        let x = a.last();
        assert(a.drop_last().push(x) =~= a);
        assert(a.to_multiset().count(x) > 0);
        assert(b.contains(x));
        let k = choose|k: int| 0 <= k < b.len() && b[k] == x;
        lemma_info_box_remove(b, k);
        assert(a.drop_last().to_multiset() =~= b.remove(k).to_multiset());
        lemma_info_box_permutation(a.drop_last(), b.remove(k));
    }
}

/// Taking one primitive out of a list takes it out of the count of its
/// bucket.
proof fn lemma_count_below_remove(s: Seq<BVHPrimitiveInfo>, at: int, b: B3, axis: int, k: int)
    requires
        0 <= at < s.len(),
    ensures
        count_below(s, b, axis, k) == count_below(s.remove(at), b, axis, k) + if bucket_of(
            s[at],
            b,
            axis,
        ) < k {
            1int
        } else {
            0int
        },
    decreases s.len(),
{
    if at == s.len() - 1 {
        assert(s.remove(at) =~= s.drop_last());
    } else {
        let front = s.drop_last();
        lemma_count_below_remove(front, at, b, axis, k);
        assert(s.remove(at).drop_last() =~= front.remove(at));
        assert(s.remove(at).last() == s.last());
    }
}

/// The number of primitives before a bucket does not depend on their
/// order.
pub proof fn lemma_count_below_permutation(
    a: Seq<BVHPrimitiveInfo>,
    c: Seq<BVHPrimitiveInfo>,
    b: B3,
    axis: int,
    k: int,
)
    requires
        a.to_multiset() == c.to_multiset(),
    ensures
        count_below(a, b, axis, k) == count_below(c, b, axis, k),
        a.len() == c.len(),
    decreases a.len(),
{
    broadcast use vstd::seq_lib::group_to_multiset_ensures;
    broadcast use vstd::multiset::group_multiset_axioms;

    a.to_multiset_ensures();
    c.to_multiset_ensures();
    if a.len() == 0 {
        assert(c.len() == 0);
    } else {
        let x = a.last();
        assert(a.drop_last().push(x) =~= a);
        assert(a.to_multiset().count(x) > 0);
        assert(c.contains(x));
        let at = choose|at: int| 0 <= at < c.len() && c[at] == x;
        lemma_count_below_remove(c, at, b, axis, k);
        assert(a.drop_last().to_multiset() =~= c.remove(at).to_multiset());
        lemma_count_below_permutation(a.drop_last(), c.remove(at), b, axis, k);
    }
}

/// The best candidate does not depend on the order of the primitives.
pub proof fn lemma_best_candidate_permutation(
    a: Seq<BVHPrimitiveInfo>,
    c: Seq<BVHPrimitiveInfo>,
    b: B3,
    upto: int,
)
    requires
        a.to_multiset() == c.to_multiset(),
    ensures
        best_candidate(a, b, upto) == best_candidate(c, b, upto),
    decreases upto,
{
    if upto > 0 {
        lemma_best_candidate_permutation(a, c, b, upto - 1);
        lemma_count_below_permutation(
            a,
            c,
            b,
            candidate_axis(upto - 1),
            candidate_bucket(upto - 1),
        );
        match best_candidate(a, b, upto - 1) {
            Some(before) => {
                lemma_count_below_permutation(
                    a,
                    c,
                    b,
                    candidate_axis(before),
                    candidate_bucket(before),
                );
            },
            None => {},
        }
    }
}

/// The best candidate is one of the candidates, and it leaves primitives
/// on both sides.
pub proof fn lemma_best_candidate_divides(infos: Seq<BVHPrimitiveInfo>, b: B3, upto: int)
    ensures
        best_candidate(infos, b, upto) matches Some(c) ==> 0 <= c < upto && candidate_divides(
            infos,
            b,
            c,
        ),
    decreases upto,
{
    if upto > 0 {
        lemma_best_candidate_divides(infos, b, upto - 1);
    }
}

/// The smallest box around the boxes of `infos`.
fn bounds_of_all(infos: &Vec<BVHPrimitiveInfo>) -> (b: Bound3)
    ensures
        b@ == info_box(infos@),
{
    let mut bounds: Bound3 = Bound3::default();
    let mut i: usize = 0;
    while i < infos.len()
        invariant
            0 <= i <= infos.len(),
            bounds@ == info_box(infos@.subrange(0, i as int)),
        decreases infos.len() - i,
    {
        proof {
            let longer = infos@.subrange(0, i + 1);
            assert(longer.drop_last() =~= infos@.subrange(0, i as int));
            assert(longer.last() == infos@[i as int]);
        }
        bounds = union(&bounds, &infos[i].bounds);
        i = i + 1;
    }
    proof {
        assert(infos@.subrange(0, infos@.len() as int) =~= infos@);
    }
    bounds
}

/// The bucket that holds the centroid of `info`.
fn bucket_index(info: &BVHPrimitiveInfo, b: &Bound3, axis: usize) -> (r: usize)
    ensures
        r == bucket_of(*info, b@, axis as int),
        r < BUCKET_COUNT,
{
    let lo: i128 = b.p_min.axis(axis).raw as i128;
    let hi: i128 = b.p_max.axis(axis).raw as i128;
    let c: i128 = info.bounds.centroid().axis(axis).raw as i128;
    if hi <= lo || c <= lo {
        0
    } else if c >= hi {
        BUCKET_COUNT - 1
    } else {
        let q: i128 = ((c - lo) * (BUCKET_COUNT as i128)) / (hi - lo);
        assert(0 <= q < BUCKET_COUNT) by (nonlinear_arith)
            requires
                q == ((c - lo) * (BUCKET_COUNT as int)) / (hi - lo),
                0 < c - lo < hi - lo,
                BUCKET_COUNT == 5,
        ;
        q as usize
    }
}

/// Number of primitives in the buckets before bucket `k`.
fn count_before(infos: &Vec<BVHPrimitiveInfo>, b: &Bound3, axis: usize, k: usize) -> (count: usize)
    ensures
        count == count_below(infos@, b@, axis as int, k as int),
        count <= infos@.len(),
{
    let mut count: usize = 0;
    let mut i: usize = 0;
    while i < infos.len()
        invariant
            0 <= i <= infos.len(),
            count <= i,
            count == count_below(infos@.subrange(0, i as int), b@, axis as int, k as int),
        decreases infos.len() - i,
    {
        proof {
            let longer = infos@.subrange(0, i + 1);
            assert(longer.drop_last() =~= infos@.subrange(0, i as int));
            assert(longer.last() == infos@[i as int]);
        }
        if bucket_index(&infos[i], b, axis) < k {
            count = count + 1;
        }
        i = i + 1;
    }
    proof {
        assert(infos@.subrange(0, infos@.len() as int) =~= infos@);
    }
    count
}

/// The cheapest candidate that leaves primitives on both sides.
fn choose_split(infos: &Vec<BVHPrimitiveInfo>, b: &Bound3) -> (best: Option<usize>)
    ensures
        match best {
            Some(c) => best_candidate(infos@, b@, CANDIDATES as int) == Some(c as int),
            None => best_candidate(infos@, b@, CANDIDATES as int) is None,
        },
        best matches Some(c) ==> c < CANDIDATES,
{
    let n: usize = infos.len();
    let mut best: Option<usize> = None;
    let mut cost: u128 = 0;
    let mut c: usize = 0;
    while c < CANDIDATES
        invariant
            0 <= c <= CANDIDATES,
            n == infos@.len(),
            match best {
                Some(found) => best_candidate(infos@, b@, c as int) == Some(found as int) && cost
                    == candidate_cost(infos@, b@, found as int) && found < c,
                None => best_candidate(infos@, b@, c as int) is None,
            },
        decreases CANDIDATES - c,
    {
        let axis: usize = c / BUCKET_COUNT;
        let k: usize = c % BUCKET_COUNT;
        let below: usize = count_before(infos, b, axis, k);
        if 0 < below && below < n {
            let weight_below: u128 = ((k + 1) as u128) * INTERSECTION_COST;
            let weight_above: u128 = ((BUCKET_COUNT - k - 1) as u128) * INTERSECTION_COST;
            let above: u128 = (n - below) as u128;
            assert(weight_below * below <= 10 * 0x1_0000_0000_0000_0000 && weight_above * above
                <= 10 * 0x1_0000_0000_0000_0000) by (nonlinear_arith)
                requires
                    weight_below <= 10,
                    weight_above <= 10,
                    below <= 0x1_0000_0000_0000_0000,
                    above <= 0x1_0000_0000_0000_0000,
            ;
            let lower: u128 = weight_below * (below as u128);
            let upper: u128 = weight_above * above;
            assert(lower == (k + 1) * INTERSECTION_COST * below) by (nonlinear_arith)
                requires
                    lower == weight_below * below,
                    weight_below == (k + 1) * INTERSECTION_COST,
            ;
            assert(upper == (BUCKET_COUNT - k - 1) * INTERSECTION_COST * (n - below))
                by (nonlinear_arith)
                requires
                    upper == weight_above * above,
                    weight_above == (BUCKET_COUNT - k - 1) * INTERSECTION_COST,
                    above == n - below,
            ;
            let local: u128 = (BUCKET_COUNT as u128) * TRAVERSAL_COST + lower + upper;
            let cheaper: bool = match best {
                None => true,
                Some(_) => local < cost,
            };
            if cheaper {
                best = Some(c);
                cost = local;
            }
        }
        c = c + 1;
    }
    best
}

/// The primitives of the buckets before bucket `k`, and the others, each in
/// the order of `infos`.
fn divide(infos: &Vec<BVHPrimitiveInfo>, b: &Bound3, axis: usize, k: usize) -> (sides: (
    Vec<BVHPrimitiveInfo>,
    Vec<BVHPrimitiveInfo>,
))
    ensures
        (sides.0@ + sides.1@).to_multiset() == infos@.to_multiset(),
        sides.0@.len() == count_below(infos@, b@, axis as int, k as int),
        sides.0@.len() + sides.1@.len() == infos@.len(),
        forall|i: int|
            0 <= i < sides.0@.len() ==> bucket_of(#[trigger] sides.0@[i], b@, axis as int) < k,
        forall|j: int|
            0 <= j < sides.1@.len() ==> bucket_of(#[trigger] sides.1@[j], b@, axis as int) >= k,
{
    let mut lower: Vec<BVHPrimitiveInfo> = Vec::new();
    let mut upper: Vec<BVHPrimitiveInfo> = Vec::new();
    let mut i: usize = 0;
    proof {
        assert((lower@ + upper@) =~= infos@.subrange(0, 0));
    }
    while i < infos.len()
        invariant
            0 <= i <= infos.len(),
            (lower@ + upper@).to_multiset() == infos@.subrange(0, i as int).to_multiset(),
            lower@.len() == count_below(infos@.subrange(0, i as int), b@, axis as int, k as int),
            lower@.len() + upper@.len() == i,
            forall|q: int|
                0 <= q < lower@.len() ==> bucket_of(#[trigger] lower@[q], b@, axis as int) < k,
            forall|q: int|
                0 <= q < upper@.len() ==> bucket_of(#[trigger] upper@[q], b@, axis as int) >= k,
        decreases infos.len() - i,
    {
        let info: BVHPrimitiveInfo = infos[i];
        let ghost old_lower = lower@;
        let ghost old_upper = upper@;
        proof {
            let longer = infos@.subrange(0, i + 1);
            assert(longer.drop_last() =~= infos@.subrange(0, i as int));
            assert(longer.last() == info);
            assert(longer =~= infos@.subrange(0, i as int).push(info));
        }
        if bucket_index(&info, b, axis) < k {
            lower.push(info);
        } else {
            upper.push(info);
        }
        proof {
            broadcast use vstd::seq_lib::group_to_multiset_ensures;
            broadcast use vstd::multiset::group_multiset_axioms;

            vstd::seq_lib::lemma_multiset_commutative(old_lower, old_upper);
            vstd::seq_lib::lemma_multiset_commutative(lower@, upper@);
            assert((lower@ + upper@).to_multiset() =~= (old_lower + old_upper).to_multiset().insert(
                info,
            ));
        }
        i = i + 1;
    }
    proof {
        assert(infos@.subrange(0, infos@.len() as int) =~= infos@);
    }
    (lower, upper)
}

/// Builds the tree over the primitives of `infos`. One primitive becomes a
/// leaf, two become an inner node with one leaf on each side. Three or more
/// are divided at the cheapest bucket boundary of their box that leaves
/// primitives on both sides, or, if there is none, at the median of their
/// centroids; each part becomes a child.
pub fn recursive_build(infos: Vec<BVHPrimitiveInfo>) -> (node: BVHBuildNode)
    requires
        infos@.len() >= 1,
    ensures
        node.consistent(),
        bucket_split(node),
        node.leaf_infos().to_multiset() == infos@.to_multiset(),
        node.leaf_infos().len() == infos@.len(),
        infos@.len() == 1 ==> node == leaf_of(infos@[0]),
        infos@.len() == 2 ==> node.is_pair_of(infos@[0], infos@[1]),
    decreases infos@.len(),
{
    let n: usize = infos.len();
    if n == 1 {
        let info: BVHPrimitiveInfo = infos[0];
        let node = BVHBuildNode::Leaf { bounds: info.bounds, area: info.area, obj: info.index };
        proof {
            assert(node.leaf_infos() =~= infos@);
        }
        node
    } else if n == 2 {
        let first: BVHPrimitiveInfo = infos[0];
        let second: BVHPrimitiveInfo = infos[1];
        let left = BVHBuildNode::Leaf { bounds: first.bounds, area: first.area, obj: first.index };
        let right = BVHBuildNode::Leaf {
            bounds: second.bounds,
            area: second.area,
            obj: second.index,
        };
        proof {
            assert(left.leaf_infos() =~= seq![first]);
            assert(right.leaf_infos() =~= seq![second]);
            assert(left.consistent() && right.consistent());
            assert(bucket_split(left) && bucket_split(right));
        }
        let node = BVHBuildNode::Internal {
            bounds: union(&first.bounds, &second.bounds),
            area: first.area.saturating_add(second.area),
            left: Box::new(left),
            right: Box::new(right),
        };
        proof {
            assert(node.leaf_infos() =~= infos@);
        }
        node
    } else {
        let bounds: Bound3 = bounds_of_all(&infos);
        let best: Option<usize> = choose_split(&infos, &bounds);
        let (lower, upper): (Vec<BVHPrimitiveInfo>, Vec<BVHPrimitiveInfo>) = match best {
            Some(c) => {
                proof {
                    lemma_best_candidate_divides(infos@, bounds@, CANDIDATES as int);
                }
                divide(&infos, &bounds, c / BUCKET_COUNT, c % BUCKET_COUNT)
            },
            None => halve(&infos),
        };
        let ghost lo = lower@;
        let ghost hi = upper@;
        let left: BVHBuildNode = recursive_build(lower);
        let right: BVHBuildNode = recursive_build(upper);
        let node = BVHBuildNode::Internal {
            bounds: union(&left.get_bounds(), &right.get_bounds()),
            area: left.get_area().saturating_add(right.get_area()),
            left: Box::new(left),
            right: Box::new(right),
        };
        proof {
            broadcast use vstd::seq_lib::group_to_multiset_ensures;
            broadcast use vstd::multiset::group_multiset_axioms;

            let l = left.leaf_infos();
            let r = right.leaf_infos();
            vstd::seq_lib::lemma_multiset_commutative(l, r);
            vstd::seq_lib::lemma_multiset_commutative(lo, hi);
            assert((l + r).to_multiset() =~= infos@.to_multiset());
            lemma_info_box_permutation(l + r, infos@);
            lemma_best_candidate_permutation(l + r, infos@, bounds@, CANDIDATES as int);
            lemma_centroid_box_permutation(l + r, infos@);
            assert forall|i: int| 0 <= i < l.len() implies lo.contains(#[trigger] l[i]) by {
                assert(l.contains(l[i]));
                assert(l.to_multiset().count(l[i]) > 0);
            }
            assert forall|j: int| 0 <= j < r.len() implies hi.contains(#[trigger] r[j]) by {
                assert(r.contains(r[j]));
                assert(r.to_multiset().count(r[j]) > 0);
            }
            match best {
                Some(c) => {
                    assert forall|i: int| 0 <= i < l.len() implies bucket_of(
                        #[trigger] l[i],
                        bounds@,
                        candidate_axis(c as int),
                    ) < candidate_bucket(c as int) by {
                        let a = choose|a: int| 0 <= a < lo.len() && lo[a] == l[i];
                    }
                    assert forall|j: int| 0 <= j < r.len() implies bucket_of(
                        #[trigger] r[j],
                        bounds@,
                        candidate_axis(c as int),
                    ) >= candidate_bucket(c as int) by {
                        let a = choose|a: int| 0 <= a < hi.len() && hi[a] == r[j];
                    }
                },
                None => {
                    assert forall|i: int, j: int|
                        0 <= i < l.len() && 0 <= j < r.len() implies centroid_key(
                        l[i],
                        split_axis(l + r),
                    ) <= centroid_key(r[j], split_axis(l + r)) by {
                        assert(lo.contains(l[i]));
                        assert(hi.contains(r[j]));
                        let a = choose|a: int| 0 <= a < lo.len() && lo[a] == l[i];
                        let c = choose|c: int| 0 <= c < hi.len() && hi[c] == r[j];
                    }
                },
            }
        }
        node
    }
}

/// An accelerator whose tree is built by the bucketed cost heuristic.
#[derive(Debug)]
pub struct SAHAccel {
    pub root: Option<BVHBuildNode>,
}

impl SAHAccel {
    /// The accelerator as one of the common kind, for which the guarantees
    /// of traversal are stated.
    pub open spec fn as_bvh(&self) -> BVHAccel {
        BVHAccel { root: self.root }
    }

    /// The tree belongs to `prims`.
    pub open spec fn wf_for<T: Object>(&self, prims: Seq<T>) -> bool {
        self.as_bvh().wf_for(prims)
    }

    /// What the ray finds of `prims`.
    pub open spec fn hit<T: Object>(&self, prims: Seq<T>, ray: R3) -> Hit {
        self.as_bvh().hit(prims, ray)
    }

    /// Builds the tree over `primitives`. The two last arguments are kept
    /// for the callers' sake: every leaf holds one primitive.
    pub fn new<T: Object>(
        primitives: &Vec<T>,
        _max_prims_in_node: i32,
        _split_method: SplitMethod,
    ) -> (r: SAHAccel)
        ensures
            r.wf_for(primitives@),
            r.root is None <==> primitives@.len() == 0,
            r.root matches Some(root) ==> bucket_split(root),
    {
        if primitives.len() == 0 {
            return SAHAccel { root: None };
        }
        let infos: Vec<BVHPrimitiveInfo> = primitive_infos(primitives);
        let ghost listed = infos@;
        let root: BVHBuildNode = recursive_build(infos);
        proof {
            lemma_tree_belongs(root, listed, primitives@);
        }
        SAHAccel { root: Some(root) }
    }

    /// Nearest intersection of the ray with the primitives.
    pub fn intersect<T: Object>(&self, primitives: &Vec<T>, ray: &Ray) -> (r: Intersection)
        requires
            self.wf_for(primitives@),
            all_wf(primitives@),
        ensures
            r@ == self.hit(primitives@, ray@),
    {
        match &self.root {
            None => Intersection::default(),
            Some(root) => get_intersection(root, ray, primitives),
        }
    }
}

} // verus!
