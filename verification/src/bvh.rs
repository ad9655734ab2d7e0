//! The bounding-volume hierarchy.
//!
//! Construction sorts the primitives along a randomly chosen axis by the
//! minimum coordinate of their boxes and splits at the midpoint; every
//! node stores exactly the union of its children's boxes.  Traversal
//! prunes a subtree
//! whenever the ray misses its box, and is proved to return exactly the
//! closest hit that a linear scan over the node's primitives returns.

use vstd::prelude::*;
use vstd::assert_multisets_equal;
use vstd::multiset::Multiset;
use crate::vec3::in_range;
use crate::ray::{Ray, RayV, wf_ray};
use crate::aabb::{AABB, BoxV, box_hit, box_in_range, surrounding_box, lemma_box_hit_widen};
use crate::hitable::{
    Object, HitRecord, HitV, rec_matches, object_hit, closer, closest_hit, prim_box, wf_object,
    wf_list, bunion,
};
use crate::rng::Rng;

verus! {

/// A node of the hierarchy: a primitive leaf, or two children under
/// their common bounding box.
pub enum BVHNode {
    Leaf(Object),
    Node { left: Box<BVHNode>, right: Box<BVHNode>, vox: AABB },
}

/// The primitives a subtree holds, left to right.
pub open spec fn prims_of(b: BVHNode) -> Seq<Object>
    decreases b,
{
    match b {
        BVHNode::Leaf(o) => seq![o],
        BVHNode::Node { left, right, vox } => prims_of(*left) + prims_of(*right),
    }
}

/// The box a subtree answers for.
pub open spec fn tree_box(b: BVHNode) -> BoxV {
    match b {
        BVHNode::Leaf(o) => prim_box(o),
        BVHNode::Node { left, right, vox } => vox@,
    }
}

/// Well-formedness: primitives are well formed and every node's box
/// is exactly the union of its children's boxes.
pub open spec fn wf_tree(b: BVHNode) -> bool
    decreases b,
{
    match b {
        BVHNode::Leaf(o) => wf_object(o),
        BVHNode::Node { left, right, vox } => wf_tree(*left) && wf_tree(*right) && vox@ == bunion(
            tree_box(*left),
            tree_box(*right),
        ) && box_in_range(vox@),
    }
}

/// A well-formed primitive's box has scene-sized coordinates.
proof fn lemma_prim_box_range(o: Object)
    requires
        wf_object(o),
    ensures
        box_in_range(prim_box(o)),
{
}

/// A well-formed subtree's box has scene-sized coordinates.
pub proof fn lemma_tree_box_range(b: BVHNode)
    requires
        wf_tree(b),
    ensures
        box_in_range(tree_box(b)),
{
    match b {
        BVHNode::Leaf(o) => lemma_prim_box_range(o),
        BVHNode::Node { left, right, vox } => {},
    }
}

/// `closer` keeps the left-most among equally close candidates, in
/// whatever grouping.
proof fn lemma_closer_assoc(a: Option<HitV>, b: Option<HitV>, c: Option<HitV>)
    ensures
        closer(closer(a, b), c) == closer(a, closer(b, c)),
{
}

/// The closest hit over a concatenation combines the two halves'
/// closest hits, the left half winning ties.
pub proof fn lemma_closest_concat(s1: Seq<Object>, s2: Seq<Object>, r: RayV, t0: int, t1: int)
    ensures
        closest_hit(s1 + s2, r, t0, t1) == closer(
            closest_hit(s1, r, t0, t1),
            closest_hit(s2, r, t0, t1),
        ),
    decreases s2.len(),
{
    if s2.len() == 0 {
        assert(s1 + s2 =~= s1);
    } else {
        assert((s1 + s2).drop_last() =~= s1 + s2.drop_last());
        assert((s1 + s2).last() == s2.last());
        assert((s1 + s2).len() > 0);
        lemma_closest_concat(s1, s2.drop_last(), r, t0, t1);
        lemma_closer_assoc(
            closest_hit(s1, r, t0, t1),
            closest_hit(s2.drop_last(), r, t0, t1),
            object_hit(s2.last(), r, t0, t1),
        );
    }
}

/// A primitive that hits was hit inside its own bounding box: the box
/// test is the first conjunct of every primitive's hit.
proof fn lemma_object_hit_in_box(o: Object, r: RayV, t0: int, t1: int)
    requires
        object_hit(o, r, t0, t1) is Some,
    ensures
        box_hit(prim_box(o), r, t0, t1),
{
}

/// A subtree whose box the ray misses holds no primitive the ray hits.
proof fn lemma_tree_miss(b: BVHNode, r: RayV, t0: int, t1: int)
    requires
        wf_tree(b),
        !box_hit(tree_box(b), r, t0, t1),
    ensures
        closest_hit(prims_of(b), r, t0, t1) is None,
    decreases b,
{
    match b {
        BVHNode::Leaf(o) => {
            let s = prims_of(b);
            assert(s =~= seq![o]);
            assert(s.drop_last() =~= Seq::<Object>::empty());
            assert(s.last() == o);
            assert(closest_hit(s.drop_last(), r, t0, t1) is None);
            assert(closest_hit(s, r, t0, t1) == closer(
                closest_hit(s.drop_last(), r, t0, t1),
                object_hit(o, r, t0, t1),
            ));
            assert(tree_box(b) == prim_box(o));
            if object_hit(o, r, t0, t1) is Some {
                lemma_object_hit_in_box(o, r, t0, t1);
            }
        },
        BVHNode::Node { left, right, vox } => {
            if box_hit(tree_box(*left), r, t0, t1) {
                lemma_box_hit_widen(vox@, tree_box(*left), r, t0, t1);
            }
            if box_hit(tree_box(*right), r, t0, t1) {
                lemma_box_hit_widen(vox@, tree_box(*right), r, t0, t1);
            }
            lemma_tree_miss(*left, r, t0, t1);
            lemma_tree_miss(*right, r, t0, t1);
            lemma_closest_concat(prims_of(*left), prims_of(*right), r, t0, t1);
        },
    }
}

/// What the closest hit means: none exactly when no primitive hits, and
/// otherwise some primitive's hit with the least parameter of all.
#[verifier::rlimit(100)]
#[verifier::spinoff_prover]
pub proof fn lemma_closest_props(s: Seq<Object>, r: RayV, t0: int, t1: int)
    ensures
        closest_hit(s, r, t0, t1) is None ==> forall|j: int|
            0 <= j < s.len() ==> object_hit(#[trigger] s[j], r, t0, t1) is None,
        closest_hit(s, r, t0, t1) is Some ==> exists|i: int|
            0 <= i < s.len() && object_hit(#[trigger] s[i], r, t0, t1) == closest_hit(
                s,
                r,
                t0,
                t1,
            ),
        closest_hit(s, r, t0, t1) is Some ==> forall|j: int|
            0 <= j < s.len() && object_hit(#[trigger] s[j], r, t0, t1) is Some ==> closest_hit(
                s,
                r,
                t0,
                t1,
            )->0.t <= object_hit(s[j], r, t0, t1)->0.t,
    decreases s.len(),
{
    if s.len() > 0 {
        lemma_closest_props(s.drop_last(), r, t0, t1);
        assert(forall|j: int| 0 <= j < s.len() - 1 ==> #[trigger] s[j] == s.drop_last()[j]);
        let c = closest_hit(s, r, t0, t1);
        if c is Some {
            let cp = closest_hit(s.drop_last(), r, t0, t1);
            let h = object_hit(s.last(), r, t0, t1);
            if cp is Some && (h is None || !(h->0.t < cp->0.t)) {
                let i = choose|i: int|
                    0 <= i < s.drop_last().len() && object_hit(
                        #[trigger] s.drop_last()[i],
                        r,
                        t0,
                        t1,
                    ) == cp;
                assert(object_hit(s[i], r, t0, t1) == c);
            } else {
                assert(object_hit(s[s.len() - 1], r, t0, t1) == c);
            }
        }
    }
}

/// The accelerator law: over any two sequences holding the same
/// primitives — in particular a list and the hierarchy built from it —
/// the closest hit exists for one exactly when it exists for the other,
/// and at the same parameter.
pub proof fn lemma_closest_permutation(s1: Seq<Object>, s2: Seq<Object>, r: RayV, t0: int, t1: int)
    requires
        s1.to_multiset() == s2.to_multiset(),
    ensures
        closest_hit(s1, r, t0, t1) is Some <==> closest_hit(s2, r, t0, t1) is Some,
        closest_hit(s1, r, t0, t1) is Some ==> closest_hit(s1, r, t0, t1)->0.t == closest_hit(
            s2,
            r,
            t0,
            t1,
        )->0.t,
{
    s1.to_multiset_ensures();
    s2.to_multiset_ensures();
    lemma_closest_props(s1, r, t0, t1);
    lemma_closest_props(s2, r, t0, t1);
    let c1 = closest_hit(s1, r, t0, t1);
    let c2 = closest_hit(s2, r, t0, t1);
    if c1 is Some {
        let i = choose|i: int|
            0 <= i < s1.len() && object_hit(#[trigger] s1[i], r, t0, t1) == c1;
        assert(s1.contains(s1[i]));
        assert(s2.to_multiset().count(s1[i]) > 0);
        assert(s2.contains(s1[i]));
        let k = choose|k: int| 0 <= k < s2.len() && s2[k] == s1[i];
        assert(object_hit(s2[k], r, t0, t1) == c1);
        assert(c2 is Some);
        assert(c2->0.t <= c1->0.t);
    }
    if c2 is Some {
        let i = choose|i: int|
            0 <= i < s2.len() && object_hit(#[trigger] s2[i], r, t0, t1) == c2;
        assert(s2.contains(s2[i]));
        assert(s1.to_multiset().count(s2[i]) > 0);
        assert(s1.contains(s2[i]));
        let k = choose|k: int| 0 <= k < s1.len() && s1[k] == s2[i];
        assert(object_hit(s1[k], r, t0, t1) == c2);
        assert(c1 is Some);
        assert(c1->0.t <= c2->0.t);
    }
}

impl BVHNode {
    /// The subtree's bounding box.
    pub fn bounding_box(&self) -> (b: AABB)
        requires
            wf_tree(*self),
        ensures
            b@ == tree_box(*self),
    {
        match self {
            BVHNode::Leaf(o) => o.bounding_box(),
            BVHNode::Node { left, right, vox } => *vox,
        }
    }

    /// Traversal: prune on the node's box, otherwise take the closer of
    /// the two children's hits, the left child winning ties — exactly
    /// the closest hit of a linear scan over the subtree's primitives.
    #[verifier::rlimit(60)]
    pub fn hit(&self, r: &Ray, t_min: i64, t_max: i64) -> (res: Option<HitRecord>)
        requires
            wf_tree(*self),
            wf_ray(r@),
            in_range(t_min as int, 0x8000_0000),
            in_range(t_max as int, 0x8000_0000),
        ensures
            rec_matches(res, closest_hit(prims_of(*self), r@, t_min as int, t_max as int)),
        decreases *self,
    {
        match self {
            BVHNode::Leaf(o) => {
                proof {
                    let s = prims_of(*self);
                    assert(s =~= seq![*o]);
                    assert(s.drop_last() =~= Seq::<Object>::empty());
                    assert(s.last() == *o);
                    assert(closest_hit(s.drop_last(), r@, t_min as int, t_max as int) is None);
                    assert(closest_hit(s, r@, t_min as int, t_max as int) == closer(
                        closest_hit(s.drop_last(), r@, t_min as int, t_max as int),
                        object_hit(*o, r@, t_min as int, t_max as int),
                    ));
                }
                o.hit(r, t_min, t_max)
            },
            BVHNode::Node { left, right, vox } => {
                if !vox.hit(r, t_min, t_max) {
                    proof {
                        lemma_tree_miss(*self, r@, t_min as int, t_max as int);
                    }
                    return Option::None;
                }
                let hl = left.hit(r, t_min, t_max);
                let hr = right.hit(r, t_min, t_max);
                proof {
                    lemma_closest_concat(
                        prims_of(**left),
                        prims_of(**right),
                        r@,
                        t_min as int,
                        t_max as int,
                    );
                }
                match hr {
                    Option::Some(rr) => match hl {
                        Option::Some(ll) => if rr.t < ll.t {
                            Option::Some(rr)
                        } else {
                            Option::Some(ll)
                        },
                        Option::None => Option::Some(rr),
                    },
                    Option::None => hl,
                }
            },
        }
    }
}

/// The sort key: the minimum coordinate of a primitive's box along the
/// chosen axis.
fn axis_key(o: &Object, axis: u32) -> (k: i64)
    requires
        wf_object(*o),
    ensures
        k as int == axis_key_spec(*o, axis as int),
{
    let b = o.bounding_box();
    let m = b.min();
    if axis == 0 {
        m.x
    } else if axis == 1 {
        m.y
    } else {
        m.z
    }
}

/// Non-decreasing box-minimum keys along the chosen axis.
pub open spec fn sorted_on_axis(s: Seq<Object>, axis: int) -> bool {
    forall|i: int, j: int|
        0 <= i <= j < s.len() ==> axis_key_spec(#[trigger] s[i], axis) <= axis_key_spec(
            #[trigger] s[j],
            axis,
        )
}

/// The children partition the input at the midpoint of a sorting of it
/// along one of the three axes: the sorted median split of the
/// construction.
pub open spec fn median_split(l: Seq<Object>, lp: Seq<Object>, rp: Seq<Object>) -> bool {
    exists|axis: int, sorted: Seq<Object>|
        #![trigger sorted_on_axis(sorted, axis)]
        0 <= axis < 3 && sorted.to_multiset() == l.to_multiset() && sorted_on_axis(sorted, axis)
            && lp.to_multiset() == sorted.subrange(0, sorted.len() as int / 2).to_multiset()
            && rp.to_multiset() == sorted.subrange(
            sorted.len() as int / 2,
            sorted.len() as int,
        ).to_multiset()
}

pub open spec fn axis_key_spec(o: Object, axis: int) -> int {
    if axis == 0 {
        prim_box(o).min.x
    } else if axis == 1 {
        prim_box(o).min.y
    } else {
        prim_box(o).min.z
    }
}

/// Sorts primitives by box minimum along an axis, by repeated selection
/// of the least remaining key; the primitives are preserved exactly.
fn sort_by_axis(v: Vec<Object>, axis: u32) -> (r: Vec<Object>)
    requires
        wf_list(v@),
    ensures
        r@.to_multiset() == v@.to_multiset(),
        r@.len() == v@.len(),
        wf_list(r@),
        forall|i: int, j: int|
            0 <= i <= j < r@.len() ==> axis_key_spec(#[trigger] r@[i], axis as int)
                <= axis_key_spec(#[trigger] r@[j], axis as int),
{
    broadcast use vstd::seq_lib::group_to_multiset_ensures;

    let mut src = v;
    let mut out: Vec<Object> = Vec::new();
    while src.len() > 0
        invariant
            wf_list(src@),
            wf_list(out@),
            out@.to_multiset().add(src@.to_multiset()) == v@.to_multiset(),
            out@.len() + src@.len() == v@.len(),
            forall|i: int, j: int|
                0 <= i <= j < out@.len() ==> axis_key_spec(#[trigger] out@[i], axis as int)
                    <= axis_key_spec(#[trigger] out@[j], axis as int),
            forall|i: int, j: int|
                0 <= i < out@.len() && 0 <= j < src@.len() ==> axis_key_spec(
                    #[trigger] out@[i],
                    axis as int,
                ) <= axis_key_spec(#[trigger] src@[j], axis as int),
        decreases src.len(),
    {
        let mut mi: usize = 0;
        let mut j: usize = 1;
        while j < src.len()
            invariant
                0 <= mi < j <= src@.len(),
                wf_list(src@),
                forall|k: int|
                    0 <= k < j ==> axis_key_spec(src@[mi as int], axis as int) <= axis_key_spec(
                        #[trigger] src@[k],
                        axis as int,
                    ),
            decreases src.len() - j,
        {
            if axis_key(&src[j], axis) < axis_key(&src[mi], axis) {
                mi = j;
            }
            j = j + 1;
        }
        let ghost old_src = src@;
        let ghost old_out = out@;
        let picked = src.remove(mi);
        out.push(picked);
        proof {
            broadcast use vstd::multiset::group_multiset_axioms;

            old_src.to_multiset_ensures();
            old_out.to_multiset_ensures();
            assert(out@ =~= old_out.push(picked));
            assert(src@ =~= old_src.remove(mi as int));
            assert(old_src.contains(picked)) by {
                assert(0 <= mi < old_src.len() && old_src[mi as int] == picked);
            }
            assert(old_src.to_multiset().count(picked) > 0);
            assert(old_out.push(picked).to_multiset() =~= old_out.to_multiset().insert(picked));
            assert(old_src.remove(mi as int).to_multiset() =~= old_src.to_multiset().remove(
                picked,
            ));
            assert(out@.to_multiset() =~= old_out.to_multiset().insert(picked));
            assert(src@.to_multiset() =~= old_src.to_multiset().remove(picked));
            assert_multisets_equal!(
                out@.to_multiset().add(src@.to_multiset()),
                old_out.to_multiset().add(old_src.to_multiset())
            );
            assert(forall|k: int|
                0 <= k < src@.len() ==> old_src.contains(#[trigger] src@[k]));
            assert(forall|k: int|
                0 <= k < src@.len() ==> axis_key_spec(picked, axis as int) <= axis_key_spec(
                    #[trigger] src@[k],
                    axis as int,
                )) by {
                assert(forall|k: int|
                    0 <= k < src@.len() ==> #[trigger] src@[k] == if k < mi as int {
                        old_src[k]
                    } else {
                        old_src[k + 1]
                    });
            }
        }
    }
    proof {
        assert(src@.to_multiset() =~= Multiset::<Object>::empty());
        assert(out@.to_multiset() =~= v@.to_multiset());
    }
    out
}

/// Well-formedness carries across any reordering: every element of a
/// multiset-equal sequence occurs in the original.
proof fn lemma_wf_list_multiset(s1: Seq<Object>, s2: Seq<Object>)
    requires
        wf_list(s1),
        s1.to_multiset() == s2.to_multiset(),
    ensures
        wf_list(s2),
{
    broadcast use vstd::seq_lib::group_to_multiset_ensures;

    assert forall|i: int| 0 <= i < s2.len() implies wf_object(#[trigger] s2[i]) by {
        assert(s2.contains(s2[i]));
        assert(s2.to_multiset().count(s2[i]) > 0);
        assert(s1.to_multiset().count(s2[i]) > 0);
        assert(s1.contains(s2[i]));
        let k = choose|k: int| 0 <= k < s1.len() && s1[k] == s2[i];
        assert(wf_object(s1[k]));
    }
}

impl BVHNode {
    /// Builds the hierarchy over a non-empty primitive list: sort along
    /// a random axis, split at the midpoint, recurse; one or two
    /// primitives become leaves.  The tree holds exactly the given
    /// primitives.
    pub fn new(l: Vec<Object>, time0: i64, time1: i64, rng: &mut Rng) -> (r: BVHNode)
        requires
            l@.len() >= 1,
            wf_list(l@),
        ensures
            prims_of(r).to_multiset() == l@.to_multiset(),
            wf_tree(r),
            l@.len() == 1 ==> r is Leaf,
            l@.len() >= 2 ==> r is Node,
            r matches BVHNode::Node { left, right, vox } ==> vox@ == bunion(
                tree_box(*left),
                tree_box(*right),
            ) && median_split(l@, prims_of(*left), prims_of(*right)),
        decreases l@.len(),
    {
        broadcast use vstd::seq_lib::group_to_multiset_ensures;

        let axis = rng.next_u32() % 3;
        let sorted = sort_by_axis(l, axis);
        proof {
            lemma_wf_list_multiset(l@, sorted@);
        }
        if sorted.len() == 1 {
            let o = sorted[0];
            proof {
                assert(wf_object(sorted@[0]));
                assert(sorted@ =~= seq![o]);
                assert(prims_of(BVHNode::Leaf(o)) =~= seq![o]);
                assert(wf_tree(BVHNode::Leaf(o)));
            }
            BVHNode::Leaf(o)
        } else if sorted.len() == 2 {
            let a = sorted[0];
            let b = sorted[1];
            let vox = surrounding_box(a.bounding_box(), b.bounding_box());
            let node = BVHNode::Node {
                left: Box::new(BVHNode::Leaf(a)),
                right: Box::new(BVHNode::Leaf(b)),
                vox,
            };
            proof {
                assert(wf_object(sorted@[0]) && wf_object(sorted@[1]));
                assert(prims_of(BVHNode::Leaf(a)) =~= seq![a]);
                assert(prims_of(BVHNode::Leaf(b)) =~= seq![b]);
                assert(prims_of(node) =~= seq![a] + seq![b]);
                assert(seq![a] + seq![b] =~= sorted@);
                lemma_prim_box_range(a);
                lemma_prim_box_range(b);
                assert(wf_tree(BVHNode::Leaf(a)));
                assert(wf_tree(BVHNode::Leaf(b)));
                assert(tree_box(BVHNode::Leaf(a)) == prim_box(a));
                assert(tree_box(BVHNode::Leaf(b)) == prim_box(b));
                assert(vox@ == bunion(prim_box(a), prim_box(b)));
                assert(wf_tree(node));
                assert(0 <= (axis as int) && (axis as int) < 3);
                assert(sorted_on_axis(sorted@, axis as int));
                assert(sorted@.subrange(0, sorted@.len() as int / 2) =~= seq![a]);
                assert(sorted@.subrange(sorted@.len() as int / 2, sorted@.len() as int)
                    =~= seq![b]);
                assert(median_split(l@, prims_of(BVHNode::Leaf(a)), prims_of(BVHNode::Leaf(b))));
            }
            node
        } else {
            let mid = sorted.len() / 2;
            let mut vf: Vec<Object> = Vec::new();
            let mut vl: Vec<Object> = Vec::new();
            let mut i: usize = 0;
            while i < mid
                invariant
                    0 <= i <= mid,
                    mid < sorted@.len(),
                    wf_list(sorted@),
                    vf@ =~= sorted@.subrange(0, i as int),
                decreases mid - i,
            {
                vf.push(sorted[i]);
                i = i + 1;
            }
            let mut k: usize = mid;
            while k < sorted.len()
                invariant
                    mid <= k <= sorted@.len(),
                    wf_list(sorted@),
                    vl@ =~= sorted@.subrange(mid as int, k as int),
                decreases sorted@.len() - k,
            {
                vl.push(sorted[k]);
                k = k + 1;
            }
            proof {
                assert(vf@ =~= sorted@.subrange(0, mid as int));
                assert(vl@ =~= sorted@.subrange(mid as int, sorted@.len() as int));
                assert(vf@ + vl@ =~= sorted@);
                assert(wf_list(vf@));
                assert(wf_list(vl@));
                vstd::seq_lib::lemma_multiset_commutative(vf@, vl@);
            }
            let ghost gvf = vf@;
            let ghost gvl = vl@;
            let left = BVHNode::new(vf, time0, time1, rng);
            let right = BVHNode::new(vl, time0, time1, rng);
            let lb = left.bounding_box();
            let rb = right.bounding_box();
            let vox = surrounding_box(lb, rb);
            let node = BVHNode::Node { left: Box::new(left), right: Box::new(right), vox };
            proof {
                lemma_tree_box_range(left);
                lemma_tree_box_range(right);
                vstd::seq_lib::lemma_multiset_commutative(prims_of(left), prims_of(right));
                assert(prims_of(node) == prims_of(left) + prims_of(right));
                assert(prims_of(node).to_multiset() =~= sorted@.to_multiset());
                assert(vox@ == bunion(tree_box(left), tree_box(right)));
                assert(wf_tree(node));
                assert(0 <= (axis as int) && (axis as int) < 3);
                assert(sorted_on_axis(sorted@, axis as int));
                assert(mid as int == sorted@.len() as int / 2);
                assert(gvf =~= sorted@.subrange(0, sorted@.len() as int / 2));
                assert(gvl =~= sorted@.subrange(sorted@.len() as int / 2, sorted@.len() as int));
                assert(median_split(l@, prims_of(left), prims_of(right)));
            }
            node
        }
    }
}

} // verus!
