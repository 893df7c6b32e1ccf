//! Building the bounding volume hierarchy.
//!
//! The build sorts the primitives by the minimum coordinate of their
//! boxes on a randomly chosen axis, splits the order in half and
//! recurses.  The tree's root box is characterized as the tight union of
//! the input boxes, which makes it independent of the input order and of
//! the chosen axes.

use vstd::prelude::*;
use crate::aabb::{aabb_hit_v, box_encloses_v, lemma_encloses_trans, lemma_surround_encloses, Aabb, AabbV};
use crate::fixed::Fx;
use crate::hittable::{
    bounding_box_v, hittable_wf, list_det, BVHNode, Hittable, HittableList,
};
use crate::nearest::{box_covers_params, covered_v, is_param, seq_has_param};
use crate::ray::RayV;
use crate::rng::rand_index;
use crate::vec3::axis_v;

verus! {

/// The box of a primitive, for primitives that have one.
pub open spec fn item_box(h: Hittable, t0: int, t1: int) -> AabbV {
    match bounding_box_v(h, t0, t1) {
        Some(b) => b,
        None => AabbV {
            min: crate::vec3::Vec3V { x: 0, y: 0, z: 0 },
            max: crate::vec3::Vec3V { x: 0, y: 0, z: 0 },
        },
    }
}

/// Every member has a bounding box.
pub open spec fn all_boxed(s: Seq<Hittable>, t0: int, t1: int) -> bool {
    forall|i: int| 0 <= i < s.len() ==> (#[trigger] bounding_box_v(s[i], t0, t1)) is Some
}

/// `b` is the tight union of the members' boxes: it encloses each of
/// them, and each face touches one of them.
pub open spec fn is_union_of(b: AabbV, s: Seq<Hittable>, t0: int, t1: int) -> bool {
    &&& forall|i: int|
        0 <= i < s.len() ==> box_encloses_v(b, #[trigger] item_box(s[i], t0, t1))
    &&& exists|i: int| 0 <= i < s.len() && (#[trigger] item_box(s[i], t0, t1)).min.x == b.min.x
    &&& exists|i: int| 0 <= i < s.len() && (#[trigger] item_box(s[i], t0, t1)).min.y == b.min.y
    &&& exists|i: int| 0 <= i < s.len() && (#[trigger] item_box(s[i], t0, t1)).min.z == b.min.z
    &&& exists|i: int| 0 <= i < s.len() && (#[trigger] item_box(s[i], t0, t1)).max.x == b.max.x
    &&& exists|i: int| 0 <= i < s.len() && (#[trigger] item_box(s[i], t0, t1)).max.y == b.max.y
    &&& exists|i: int| 0 <= i < s.len() && (#[trigger] item_box(s[i], t0, t1)).max.z == b.max.z
}

/// The primitives at a tree's leaves: hierarchy nodes flatten into
/// their two subtrees, every other primitive is one leaf.
pub open spec fn tree_items(h: Hittable) -> Seq<Hittable>
    decreases h,
{
    match h {
        Hittable::Bvh(n) => tree_items(*n.left) + tree_items(*n.right),
        _ => seq![h],
    }
}

/// The leaves of every member from index `i` on, in order.
pub open spec fn seq_items(s: Seq<Hittable>, i: int) -> Seq<Hittable>
    decreases s, s.len() - i,
{
    if i < 0 || i >= s.len() {
        Seq::empty()
    } else {
        tree_items(s[i]) + seq_items(s, i + 1)
    }
}

/// Leaves of a tail of a concatenation that lies entirely in the second
/// part.
proof fn lemma_items_offset(sa: Seq<Hittable>, sb: Seq<Hittable>, k: int)
    requires
        0 <= k <= sb.len(),
    ensures
        seq_items(sa + sb, sa.len() + k) =~= seq_items(sb, k),
    decreases sb.len() - k,
{
    if k < sb.len() {
        lemma_items_offset(sa, sb, k + 1);
        assert((sa + sb)[sa.len() + k] == sb[k]);
    }
}

/// Leaves of a concatenation split at the boundary.
proof fn lemma_items_concat(sa: Seq<Hittable>, sb: Seq<Hittable>, i: int)
    requires
        0 <= i <= sa.len(),
    ensures
        seq_items(sa + sb, i) =~= seq_items(sa, i) + seq_items(sb, 0),
    decreases sa.len() - i,
{
    if i == sa.len() {
        lemma_items_offset(sa, sb, 0);
        assert(seq_items(sa, i) =~= Seq::<Hittable>::empty());
        assert(seq_items(sa + sb, i) =~= Seq::<Hittable>::empty() + seq_items(sb, 0));
    } else {
        lemma_items_concat(sa, sb, i + 1);
        assert((sa + sb)[i] == sa[i]);
        assert(tree_items(sa[i]) + (seq_items(sa, i + 1) + seq_items(sb, 0)) =~= (tree_items(
            sa[i],
        ) + seq_items(sa, i + 1)) + seq_items(sb, 0));
    }
}

/// Removing member `m` removes exactly its leaves from the multiset.
proof fn lemma_items_remove(s: Seq<Hittable>, m: int)
    requires
        0 <= m < s.len(),
    ensures
        seq_items(s, 0).to_multiset() == tree_items(s[m]).to_multiset().add(
            seq_items(s.remove(m), 0).to_multiset(),
        ),
{
    let prefix = s.subrange(0, m);
    let mid = s.subrange(m, m + 1);
    let suffix = s.subrange(m + 1, s.len() as int);
    assert(s =~= prefix + (mid + suffix));
    lemma_items_concat(prefix, mid + suffix, 0);
    lemma_items_concat(mid, suffix, 0);
    assert(mid[0] == s[m]);
    assert(seq_items(mid, 1) =~= Seq::<Hittable>::empty());
    assert(seq_items(mid, 0) =~= tree_items(s[m]) + Seq::<Hittable>::empty());
    assert(seq_items(mid, 0) =~= tree_items(s[m]));
    assert(s.remove(m) =~= prefix + suffix);
    lemma_items_concat(prefix, suffix, 0);
    vstd::seq_lib::lemma_multiset_commutative(prefix, mid + suffix);
    vstd::seq_lib::lemma_multiset_commutative(prefix, suffix);
    let pi = seq_items(prefix, 0);
    let mi = tree_items(s[m]);
    let si = seq_items(suffix, 0);
    assert(seq_items(s, 0) =~= pi + (mi + si));
    assert(seq_items(s.remove(m), 0) =~= pi + si);
    vstd::seq_lib::lemma_multiset_commutative(pi, mi + si);
    vstd::seq_lib::lemma_multiset_commutative(mi, si);
    vstd::seq_lib::lemma_multiset_commutative(pi, si);
    assert(seq_items(s, 0).to_multiset() =~= mi.to_multiset().add(
        (pi + si).to_multiset(),
    ));
}

/// Reordering the members reorders but never loses leaves.
proof fn lemma_items_permuted(s1: Seq<Hittable>, s2: Seq<Hittable>)
    requires
        s1.to_multiset() == s2.to_multiset(),
    ensures
        seq_items(s1, 0).to_multiset() == seq_items(s2, 0).to_multiset(),
    decreases s1.len(),
{
    s1.to_multiset_ensures();
    s2.to_multiset_ensures();
    if s1.len() == 0 {
        assert(s2.len() == 0);
        assert(seq_items(s1, 0) =~= seq_items(s2, 0));
    } else {
        let x = s1[0];
        assert(s1.contains(x));
        assert(s1.to_multiset().count(x) > 0);
        assert(s2.contains(x));
        let m = choose|m: int| 0 <= m < s2.len() && s2[m] == x;
        let r1 = s1.remove(0);
        let r2 = s2.remove(m);
        assert(r1.to_multiset() =~= s1.to_multiset().remove(x));
        assert(r2.to_multiset() =~= s2.to_multiset().remove(x));
        lemma_items_permuted(r1, r2);
        lemma_items_remove(s1, 0);
        lemma_items_remove(s2, m);
    }
}

/// Every hierarchy node caches exactly the surrounding box of its two
/// children's boxes.
pub open spec fn boxes_consistent(h: Hittable, t0: int, t1: int) -> bool
    decreases h,
{
    match h {
        Hittable::Bvh(n) => {
            &&& bounding_box_v(*n.left, t0, t1) is Some
            &&& bounding_box_v(*n.right, t0, t1) is Some
            &&& n.bounding_box@ == crate::aabb::surround_v(
                bounding_box_v(*n.left, t0, t1)->Some_0,
                bounding_box_v(*n.right, t0, t1)->Some_0,
            )
            &&& boxes_consistent(*n.left, t0, t1)
            &&& boxes_consistent(*n.right, t0, t1)
        },
        _ => true,
    }
}

/// Every member's own hierarchy nodes are consistent.
pub open spec fn each_consistent(s: Seq<Hittable>, t0: int, t1: int) -> bool {
    forall|i: int| 0 <= i < s.len() ==> boxes_consistent(#[trigger] s[i], t0, t1)
}

/// The sort key: the minimum coordinate of the member's box on an axis.
pub open spec fn key_of(h: Hittable, axis: int, t0: int, t1: int) -> int {
    axis_v(item_box(h, t0, t1).min, axis)
}

pub open spec fn sorted_by_key(s: Seq<Hittable>, axis: int, t0: int, t1: int) -> bool {
    forall|i: int, j: int|
        0 <= i < j < s.len() ==> key_of(#[trigger] s[i], axis, t0, t1) <= key_of(
            #[trigger] s[j],
            axis,
            t0,
            t1,
        )
}

/// Well-formedness of every member, as a plain quantifier.
pub open spec fn each_wf(s: Seq<Hittable>) -> bool {
    forall|i: int| 0 <= i < s.len() ==> hittable_wf(#[trigger] s[i])
}

pub open spec fn each_det(s: Seq<Hittable>) -> bool {
    forall|i: int| 0 <= i < s.len() ==> crate::hittable::deterministic_v(#[trigger] s[i])
}

/// Every member's internal box tests cover its hits, and so does its own
/// bounding box.
pub open spec fn each_covered_boxed(s: Seq<Hittable>, t0: int, t1: int) -> bool {
    forall|i: int|
        0 <= i < s.len() ==> covered_v(#[trigger] s[i]) && box_covers_params(s[i], t0, t1)
}

/// The indexed chain `list_det` and a plain quantifier agree.
pub proof fn lemma_list_det_iff(s: Seq<Hittable>, i: int)
    requires
        0 <= i <= s.len(),
    ensures
        list_det(s, i) <==> (forall|j: int|
            i <= j < s.len() ==> crate::hittable::deterministic_v(#[trigger] s[j])),
    decreases s.len() - i,
{
    if i < s.len() {
        lemma_list_det_iff(s, i + 1);
    }
}

/// Inserting an element anywhere adds exactly it to the multiset.
proof fn lemma_insert_to_multiset(s: Seq<Hittable>, i: int, x: Hittable)
    requires
        0 <= i <= s.len(),
    ensures
        s.insert(i, x).to_multiset() =~= s.to_multiset().insert(x),
{
    let s2 = s.insert(i, x);
    s2.to_multiset_ensures();
    s.to_multiset_ensures();
    assert(s2.remove(i) =~= s);
    assert(s2[i] == x);
    assert(s2.remove(i).to_multiset() =~= s2.to_multiset().remove(x));
    assert(s2.contains(x));
    assert(s2.to_multiset().count(x) > 0);
    assert forall|e: Hittable| s2.to_multiset().count(e) == s.to_multiset().insert(x).count(
        e,
    ) by {
        if e == x {
            assert(s.to_multiset().count(x) == s2.to_multiset().remove(x).count(x));
        } else {
            assert(s.to_multiset().count(e) == s2.to_multiset().remove(x).count(e));
        }
    }
}

/// Removing the last element removes exactly it from the multiset.
proof fn lemma_drop_last_to_multiset(s: Seq<Hittable>)
    requires
        s.len() > 0,
    ensures
        s.drop_last().to_multiset() =~= s.to_multiset().remove(s.last()),
{
    s.to_multiset_ensures();
    assert(s.drop_last() =~= s.remove(s.len() - 1));
    assert(s.remove(s.len() - 1).to_multiset() =~= s.to_multiset().remove(s[s.len() - 1]));
}

/// A tight union over one ordering is a tight union over every other
/// ordering of the same members.
pub proof fn lemma_union_transfer(b: AabbV, s1: Seq<Hittable>, s2: Seq<Hittable>, t0: int, t1: int)
    requires
        s1.to_multiset() == s2.to_multiset(),
        is_union_of(b, s1, t0, t1),
    ensures
        is_union_of(b, s2, t0, t1),
{
    s1.to_multiset_ensures();
    s2.to_multiset_ensures();
    assert forall|i: int|
        0 <= i < s2.len() implies box_encloses_v(b, #[trigger] item_box(s2[i], t0, t1)) by {
        assert(s2.contains(s2[i]));
        assert(s2.to_multiset().count(s2[i]) > 0);
        assert(s1.contains(s2[i]));
        let j = choose|j: int| 0 <= j < s1.len() && s1[j] == s2[i];
        assert(box_encloses_v(b, item_box(s1[j], t0, t1)));
    }
    assert(exists|i: int| 0 <= i < s2.len() && (#[trigger] item_box(s2[i], t0, t1)).min.x
        == b.min.x) by {
        let j = choose|j: int| 0 <= j < s1.len() && (#[trigger] item_box(s1[j], t0, t1)).min.x
            == b.min.x;
        assert(s1.contains(s1[j]));
        assert(s1.to_multiset().count(s1[j]) > 0);
        assert(s2.contains(s1[j]));
        let i = choose|i: int| 0 <= i < s2.len() && s2[i] == s1[j];
        assert(item_box(s2[i], t0, t1).min.x == b.min.x);
    }
    assert(exists|i: int| 0 <= i < s2.len() && (#[trigger] item_box(s2[i], t0, t1)).min.y
        == b.min.y) by {
        let j = choose|j: int| 0 <= j < s1.len() && (#[trigger] item_box(s1[j], t0, t1)).min.y
            == b.min.y;
        assert(s1.contains(s1[j]));
        assert(s1.to_multiset().count(s1[j]) > 0);
        assert(s2.contains(s1[j]));
        let i = choose|i: int| 0 <= i < s2.len() && s2[i] == s1[j];
        assert(item_box(s2[i], t0, t1).min.y == b.min.y);
    }
    assert(exists|i: int| 0 <= i < s2.len() && (#[trigger] item_box(s2[i], t0, t1)).min.z
        == b.min.z) by {
        let j = choose|j: int| 0 <= j < s1.len() && (#[trigger] item_box(s1[j], t0, t1)).min.z
            == b.min.z;
        assert(s1.contains(s1[j]));
        assert(s1.to_multiset().count(s1[j]) > 0);
        assert(s2.contains(s1[j]));
        let i = choose|i: int| 0 <= i < s2.len() && s2[i] == s1[j];
        assert(item_box(s2[i], t0, t1).min.z == b.min.z);
    }
    assert(exists|i: int| 0 <= i < s2.len() && (#[trigger] item_box(s2[i], t0, t1)).max.x
        == b.max.x) by {
        let j = choose|j: int| 0 <= j < s1.len() && (#[trigger] item_box(s1[j], t0, t1)).max.x
            == b.max.x;
        assert(s1.contains(s1[j]));
        assert(s1.to_multiset().count(s1[j]) > 0);
        assert(s2.contains(s1[j]));
        let i = choose|i: int| 0 <= i < s2.len() && s2[i] == s1[j];
        assert(item_box(s2[i], t0, t1).max.x == b.max.x);
    }
    assert(exists|i: int| 0 <= i < s2.len() && (#[trigger] item_box(s2[i], t0, t1)).max.y
        == b.max.y) by {
        let j = choose|j: int| 0 <= j < s1.len() && (#[trigger] item_box(s1[j], t0, t1)).max.y
            == b.max.y;
        assert(s1.contains(s1[j]));
        assert(s1.to_multiset().count(s1[j]) > 0);
        assert(s2.contains(s1[j]));
        let i = choose|i: int| 0 <= i < s2.len() && s2[i] == s1[j];
        assert(item_box(s2[i], t0, t1).max.y == b.max.y);
    }
    assert(exists|i: int| 0 <= i < s2.len() && (#[trigger] item_box(s2[i], t0, t1)).max.z
        == b.max.z) by {
        let j = choose|j: int| 0 <= j < s1.len() && (#[trigger] item_box(s1[j], t0, t1)).max.z
            == b.max.z;
        assert(s1.contains(s1[j]));
        assert(s1.to_multiset().count(s1[j]) > 0);
        assert(s2.contains(s1[j]));
        let i = choose|i: int| 0 <= i < s2.len() && s2[i] == s1[j];
        assert(item_box(s2[i], t0, t1).max.z == b.max.z);
    }
}

/// The tight union of a set of boxes is unique: any two orderings of the
/// same members, however each tree was split, give the same root box.
pub proof fn lemma_union_box_unique(
    b1: AabbV,
    b2: AabbV,
    s1: Seq<Hittable>,
    s2: Seq<Hittable>,
    t0: int,
    t1: int,
)
    requires
        s1.to_multiset() == s2.to_multiset(),
        is_union_of(b1, s1, t0, t1),
        is_union_of(b2, s2, t0, t1),
    ensures
        b1 == b2,
{
    lemma_union_transfer(b1, s1, s2, t0, t1);
    assert(b1.min.x == b2.min.x) by {
        let i = choose|i: int| 0 <= i < s2.len() && (#[trigger] item_box(s2[i], t0, t1)).min.x
            == b1.min.x;
        let j = choose|j: int| 0 <= j < s2.len() && (#[trigger] item_box(s2[j], t0, t1)).min.x
            == b2.min.x;
        assert(box_encloses_v(b2, item_box(s2[i], t0, t1)));
        assert(box_encloses_v(b1, item_box(s2[j], t0, t1)));
    }
    assert(b1.min.y == b2.min.y) by {
        let i = choose|i: int| 0 <= i < s2.len() && (#[trigger] item_box(s2[i], t0, t1)).min.y
            == b1.min.y;
        let j = choose|j: int| 0 <= j < s2.len() && (#[trigger] item_box(s2[j], t0, t1)).min.y
            == b2.min.y;
        assert(box_encloses_v(b2, item_box(s2[i], t0, t1)));
        assert(box_encloses_v(b1, item_box(s2[j], t0, t1)));
    }
    assert(b1.min.z == b2.min.z) by {
        let i = choose|i: int| 0 <= i < s2.len() && (#[trigger] item_box(s2[i], t0, t1)).min.z
            == b1.min.z;
        let j = choose|j: int| 0 <= j < s2.len() && (#[trigger] item_box(s2[j], t0, t1)).min.z
            == b2.min.z;
        assert(box_encloses_v(b2, item_box(s2[i], t0, t1)));
        assert(box_encloses_v(b1, item_box(s2[j], t0, t1)));
    }
    assert(b1.max.x == b2.max.x) by {
        let i = choose|i: int| 0 <= i < s2.len() && (#[trigger] item_box(s2[i], t0, t1)).max.x
            == b1.max.x;
        let j = choose|j: int| 0 <= j < s2.len() && (#[trigger] item_box(s2[j], t0, t1)).max.x
            == b2.max.x;
        assert(box_encloses_v(b2, item_box(s2[i], t0, t1)));
        assert(box_encloses_v(b1, item_box(s2[j], t0, t1)));
    }
    assert(b1.max.y == b2.max.y) by {
        let i = choose|i: int| 0 <= i < s2.len() && (#[trigger] item_box(s2[i], t0, t1)).max.y
            == b1.max.y;
        let j = choose|j: int| 0 <= j < s2.len() && (#[trigger] item_box(s2[j], t0, t1)).max.y
            == b2.max.y;
        assert(box_encloses_v(b2, item_box(s2[i], t0, t1)));
        assert(box_encloses_v(b1, item_box(s2[j], t0, t1)));
    }
    assert(b1.max.z == b2.max.z) by {
        let i = choose|i: int| 0 <= i < s2.len() && (#[trigger] item_box(s2[i], t0, t1)).max.z
            == b1.max.z;
        let j = choose|j: int| 0 <= j < s2.len() && (#[trigger] item_box(s2[j], t0, t1)).max.z
            == b2.max.z;
        assert(box_encloses_v(b2, item_box(s2[i], t0, t1)));
        assert(box_encloses_v(b1, item_box(s2[j], t0, t1)));
    }
}

/// The key of a member, computed from its box; members without a box
/// sort as zero.
fn box_key(h: &Hittable, axis: usize, time0: Fx, time1: Fx) -> (k: Fx)
    requires
        axis < 3,
    ensures
        k@ == key_of(*h, axis as int, time0@, time1@),
{
    match h.bounding_box(time0, time1) {
        Some(b) => b.min.axis(axis),
        None => Fx::zero(),
    }
}

/// Sort the members by box key with binary insertion into a fresh vector.
fn sort_by_box_key(objects: Vec<Hittable>, axis: usize, time0: Fx, time1: Fx) -> (r: Vec<
    Hittable,
>)
    requires
        axis < 3,
    ensures
        r@.to_multiset() == objects@.to_multiset(),
        sorted_by_key(r@, axis as int, time0@, time1@),
{
    let mut input = objects;
    let mut out: Vec<Hittable> = Vec::new();
    let ghost orig = input@;
    proof {
        orig.to_multiset_ensures();
        out@.to_multiset_ensures();
        assert(out@.to_multiset().add(input@.to_multiset()) =~= orig.to_multiset());
    }
    while input.len() > 0
        invariant
            axis < 3,
            sorted_by_key(out@, axis as int, time0@, time1@),
            out@.to_multiset().add(input@.to_multiset()) =~= orig.to_multiset(),
        decreases input.len(),
    {
        let ghost pre_in = input@;
        let x = match input.pop() {
            Some(x) => x,
            None => {
                proof {
                    assert(false);
                }
                unreached()
            },
        };
        proof {
            lemma_drop_last_to_multiset(pre_in);
            pre_in.to_multiset_ensures();
            assert(pre_in.contains(pre_in.last()));
        }
        let pos = insert_position(&out, &x, axis, time0, time1);
        let ghost pre_out = out@;
        out.insert(pos, x);
        proof {
            lemma_insert_to_multiset(pre_out, pos as int, x);
            assert(out@.to_multiset().add(input@.to_multiset()) =~= orig.to_multiset());
            assert forall|i: int, j: int|
                0 <= i < j < out@.len() implies key_of(#[trigger] out@[i], axis as int, time0@, time1@)
                <= key_of(#[trigger] out@[j], axis as int, time0@, time1@) by {
                if j < pos {
                } else if i < pos && j == pos {
                } else if i < pos && j > pos {
                } else if i == pos {
                } else {
                }
            }
        }
    }
    proof {
        assert(input@ =~= Seq::<Hittable>::empty());
        input@.to_multiset_ensures();
        assert forall|e: Hittable| out@.to_multiset().count(e) == orig.to_multiset().count(e) by {
            assert(input@.to_multiset().count(e) == 0) by {
                input@.to_multiset_ensures();
                assert(!input@.contains(e));
            }
            assert(out@.to_multiset().add(input@.to_multiset()).count(e)
                == orig.to_multiset().count(e));
        }
        assert(out@.to_multiset() =~= orig.to_multiset());
    }
    out
}

/// The first index whose key exceeds the new member's key.
fn insert_position(out: &Vec<Hittable>, x: &Hittable, axis: usize, time0: Fx, time1: Fx) -> (pos:
    usize)
    requires
        axis < 3,
        sorted_by_key(out@, axis as int, time0@, time1@),
    ensures
        pos <= out@.len(),
        forall|j: int|
            0 <= j < pos ==> key_of(#[trigger] out@[j], axis as int, time0@, time1@) <= key_of(
                *x,
                axis as int,
                time0@,
                time1@,
            ),
        forall|j: int|
            pos <= j < out@.len() ==> key_of(*x, axis as int, time0@, time1@) <= key_of(
                #[trigger] out@[j],
                axis as int,
                time0@,
                time1@,
            ),
{
    let kx = box_key(x, axis, time0, time1);
    let mut pos: usize = 0;
    while pos < out.len()
        invariant
            axis < 3,
            pos <= out@.len(),
            sorted_by_key(out@, axis as int, time0@, time1@),
            kx@ == key_of(*x, axis as int, time0@, time1@),
            forall|j: int|
                0 <= j < pos ==> key_of(#[trigger] out@[j], axis as int, time0@, time1@) <= kx@,
        decreases out@.len() - pos,
    {
        let kj = box_key(&out[pos], axis, time0, time1);
        if kx.lt(kj) {
            return pos;
        }
        pos = pos + 1;
    }
    pos
}

impl BVHNode {
    /// Build the hierarchy over a non-empty collection.  The tree's box
    /// is the tight union of the members' boxes, so it depends only on
    /// the set of members, not on their order or on the random split
    /// axes.
    pub fn create(hittable_list: HittableList, time0: Fx, time1: Fx) -> (r: Box<Hittable>)
        requires
            hittable_list.objects@.len() > 0,
            each_wf(hittable_list.objects@),
            all_boxed(hittable_list.objects@, time0@, time1@),
        ensures
            hittable_wf(*r),
            each_det(hittable_list.objects@) ==> crate::hittable::deterministic_v(*r),
            bounding_box_v(*r, time0@, time1@) matches Some(b) && is_union_of(
                b,
                hittable_list.objects@,
                time0@,
                time1@,
            ),
            forall|rv: RayV, t: int|
                #[trigger] is_param(*r, rv, t) <==> seq_has_param(hittable_list.objects@, rv, t),
            each_covered_boxed(hittable_list.objects@, time0@, time1@) ==> covered_v(*r),
            tree_items(*r).to_multiset() == seq_items(hittable_list.objects@, 0).to_multiset(),
            each_consistent(hittable_list.objects@, time0@, time1@) ==> boxes_consistent(
                *r, time0@, time1@,
            ),
    {
        create_tree(hittable_list.objects, time0, time1)
    }
}

/// The recursive build.
#[verifier::rlimit(60)]
fn create_tree(objects: Vec<Hittable>, time0: Fx, time1: Fx) -> (r: Box<Hittable>)
    requires
        objects@.len() > 0,
        each_wf(objects@),
        all_boxed(objects@, time0@, time1@),
    ensures
        hittable_wf(*r),
        each_det(objects@) ==> crate::hittable::deterministic_v(*r),
        bounding_box_v(*r, time0@, time1@) matches Some(b) && is_union_of(
            b,
            objects@,
            time0@,
            time1@,
        ),
        forall|rv: RayV, t: int|
            #[trigger] is_param(*r, rv, t) <==> seq_has_param(objects@, rv, t),
        each_covered_boxed(objects@, time0@, time1@) ==> covered_v(*r),
        tree_items(*r).to_multiset() == seq_items(objects@, 0).to_multiset(),
        each_consistent(objects@, time0@, time1@) ==> boxes_consistent(*r, time0@, time1@),
    decreases objects@.len(),
{
    let ghost orig = objects@;
    if objects.len() == 1 {
        let mut objects = objects;
        let x = match objects.pop() {
            Some(x) => x,
            None => {
                proof {
                    assert(false);
                }
                unreached()
            },
        };
        proof {
            assert(orig[0] == x);
            lemma_union_single(orig, time0@, time1@);
            lemma_single_params(x, orig);
            assert(seq_items(orig, 1) =~= Seq::<Hittable>::empty());
            assert(seq_items(orig, 0) =~= tree_items(x) + Seq::<Hittable>::empty());
            assert(seq_items(orig, 0) =~= tree_items(x));
        }
        return Box::new(x);
    }
    let axis = rand_index(3);
    let sorted = sort_by_box_key(objects, axis, time0, time1);
    let ghost ssorted = sorted@;
    proof {
        lemma_union_members(orig, ssorted, time0@, time1@);
        if each_det(orig) {
            lemma_det_members(orig, ssorted);
        }
    }
    let mut a = sorted;
    let mid = a.len() / 2;
    proof {
        assert(a@.len() >= 2);
        assert(1 <= mid < a@.len());
    }
    let b = a.split_off(mid);
    let ghost sa = a@;
    let ghost sb = b@;
    proof {
        lemma_halves_facts(ssorted, sa, sb, mid as int, time0@, time1@);
    }
    let left = create_tree(a, time0, time1);
    let right = create_tree(b, time0, time1);
    let lb = match left.bounding_box(time0, time1) {
        Some(lb) => lb,
        None => {
            proof {
                assert(false);
            }
            unreached()
        },
    };
    let rb = match right.bounding_box(time0, time1) {
        Some(rb) => rb,
        None => {
            proof {
                assert(false);
            }
            unreached()
        },
    };
    let bounding_box = Aabb::surrounding_box(&lb, &rb);
    proof {
        lemma_node_union(orig, ssorted, sa, sb, mid as int, lb@, rb@, bounding_box@, time0@, time1@);
    }
    let node = Box::new(Hittable::Bvh(BVHNode { left, right, bounding_box }));
    proof {
        lemma_tree_params(*node, orig, ssorted, sa, sb, mid as int);
        if each_covered_boxed(orig, time0@, time1@) {
            lemma_members_covered_boxed(orig, ssorted, sa, sb, mid as int, time0@, time1@);
            lemma_tree_covered(*node, orig, time0@, time1@);
        }
        lemma_tree_items_node(*node, orig, ssorted, sa, sb);
        if each_consistent(orig, time0@, time1@) {
            lemma_members_consistent(orig, ssorted, sa, sb, mid as int, time0@, time1@);
        }
    }
    node
}

/// Determinism of the members carries over to any reordering.
proof fn lemma_det_members(orig: Seq<Hittable>, sorted: Seq<Hittable>)
    requires
        sorted.to_multiset() == orig.to_multiset(),
        each_det(orig),
    ensures
        each_det(sorted),
{
    orig.to_multiset_ensures();
    sorted.to_multiset_ensures();
    assert forall|i: int| 0 <= i < sorted.len() implies crate::hittable::deterministic_v(
        #[trigger] sorted[i]) by {
        assert(sorted.contains(sorted[i]));
        assert(sorted.to_multiset().count(sorted[i]) > 0);
        assert(orig.contains(sorted[i]));
        let j = choose|j: int| 0 <= j < orig.len() && orig[j] == sorted[i];
        assert(crate::hittable::deterministic_v(orig[j]));
    }
}

/// The surrounding box of two tight unions is the tight union of the
/// concatenation.
proof fn lemma_union_concat(
    lb: AabbV,
    rb: AabbV,
    sa: Seq<Hittable>,
    sb: Seq<Hittable>,
    sb_box: AabbV,
    t0: int,
    t1: int,
)
    requires
        is_union_of(lb, sa, t0, t1),
        is_union_of(rb, sb, t0, t1),
        sb_box == crate::aabb::surround_v(lb, rb),
    ensures
        is_union_of(sb_box, sa + sb, t0, t1),
{
    let s = sa + sb;
    lemma_surround_encloses(lb, rb);
    assert forall|i: int|
        0 <= i < s.len() implies box_encloses_v(sb_box, #[trigger] item_box(s[i], t0, t1)) by {
        if i < sa.len() {
            assert(s[i] == sa[i]);
            lemma_encloses_trans(sb_box, lb, item_box(sa[i], t0, t1));
        } else {
            assert(s[i] == sb[i - sa.len()]);
            lemma_encloses_trans(sb_box, rb, item_box(sb[i - sa.len()], t0, t1));
        }
    }
    assert(exists|i: int| 0 <= i < s.len() && (#[trigger] item_box(s[i], t0, t1)).min.x
        == sb_box.min.x) by {
        if lb.min.x <= rb.min.x {
            let j = choose|j: int| 0 <= j < sa.len() && (#[trigger] item_box(sa[j], t0, t1)).min.x
                == lb.min.x;
            assert(s[j] == sa[j]);
            assert(item_box(s[j], t0, t1).min.x == sb_box.min.x);
        } else {
            let j = choose|j: int| 0 <= j < sb.len() && (#[trigger] item_box(sb[j], t0, t1)).min.x
                == rb.min.x;
            assert(s[sa.len() + j] == sb[j]);
            assert(item_box(s[sa.len() + j], t0, t1).min.x == sb_box.min.x);
        }
    }
    assert(exists|i: int| 0 <= i < s.len() && (#[trigger] item_box(s[i], t0, t1)).min.y
        == sb_box.min.y) by {
        if lb.min.y <= rb.min.y {
            let j = choose|j: int| 0 <= j < sa.len() && (#[trigger] item_box(sa[j], t0, t1)).min.y
                == lb.min.y;
            assert(s[j] == sa[j]);
            assert(item_box(s[j], t0, t1).min.y == sb_box.min.y);
        } else {
            let j = choose|j: int| 0 <= j < sb.len() && (#[trigger] item_box(sb[j], t0, t1)).min.y
                == rb.min.y;
            assert(s[sa.len() + j] == sb[j]);
            assert(item_box(s[sa.len() + j], t0, t1).min.y == sb_box.min.y);
        }
    }
    assert(exists|i: int| 0 <= i < s.len() && (#[trigger] item_box(s[i], t0, t1)).min.z
        == sb_box.min.z) by {
        if lb.min.z <= rb.min.z {
            let j = choose|j: int| 0 <= j < sa.len() && (#[trigger] item_box(sa[j], t0, t1)).min.z
                == lb.min.z;
            assert(s[j] == sa[j]);
            assert(item_box(s[j], t0, t1).min.z == sb_box.min.z);
        } else {
            let j = choose|j: int| 0 <= j < sb.len() && (#[trigger] item_box(sb[j], t0, t1)).min.z
                == rb.min.z;
            assert(s[sa.len() + j] == sb[j]);
            assert(item_box(s[sa.len() + j], t0, t1).min.z == sb_box.min.z);
        }
    }
    assert(exists|i: int| 0 <= i < s.len() && (#[trigger] item_box(s[i], t0, t1)).max.x
        == sb_box.max.x) by {
        if lb.max.x >= rb.max.x {
            let j = choose|j: int| 0 <= j < sa.len() && (#[trigger] item_box(sa[j], t0, t1)).max.x
                == lb.max.x;
            assert(s[j] == sa[j]);
            assert(item_box(s[j], t0, t1).max.x == sb_box.max.x);
        } else {
            let j = choose|j: int| 0 <= j < sb.len() && (#[trigger] item_box(sb[j], t0, t1)).max.x
                == rb.max.x;
            assert(s[sa.len() + j] == sb[j]);
            assert(item_box(s[sa.len() + j], t0, t1).max.x == sb_box.max.x);
        }
    }
    assert(exists|i: int| 0 <= i < s.len() && (#[trigger] item_box(s[i], t0, t1)).max.y
        == sb_box.max.y) by {
        if lb.max.y >= rb.max.y {
            let j = choose|j: int| 0 <= j < sa.len() && (#[trigger] item_box(sa[j], t0, t1)).max.y
                == lb.max.y;
            assert(s[j] == sa[j]);
            assert(item_box(s[j], t0, t1).max.y == sb_box.max.y);
        } else {
            let j = choose|j: int| 0 <= j < sb.len() && (#[trigger] item_box(sb[j], t0, t1)).max.y
                == rb.max.y;
            assert(s[sa.len() + j] == sb[j]);
            assert(item_box(s[sa.len() + j], t0, t1).max.y == sb_box.max.y);
        }
    }
    assert(exists|i: int| 0 <= i < s.len() && (#[trigger] item_box(s[i], t0, t1)).max.z
        == sb_box.max.z) by {
        if lb.max.z >= rb.max.z {
            let j = choose|j: int| 0 <= j < sa.len() && (#[trigger] item_box(sa[j], t0, t1)).max.z
                == lb.max.z;
            assert(s[j] == sa[j]);
            assert(item_box(s[j], t0, t1).max.z == sb_box.max.z);
        } else {
            let j = choose|j: int| 0 <= j < sb.len() && (#[trigger] item_box(sb[j], t0, t1)).max.z
                == rb.max.z;
            assert(s[sa.len() + j] == sb[j]);
            assert(item_box(s[sa.len() + j], t0, t1).max.z == sb_box.max.z);
        }
    }
}

/// A single member is its own tight union.
proof fn lemma_union_single(s: Seq<Hittable>, t0: int, t1: int)
    requires
        s.len() == 1,
        bounding_box_v(s[0], t0, t1) is Some,
    ensures
        bounding_box_v(s[0], t0, t1) matches Some(b) && is_union_of(b, s, t0, t1),
{
    let b = bounding_box_v(s[0], t0, t1)->Some_0;
    assert(item_box(s[0], t0, t1) == b);
    assert(box_encloses_v(b, b));
}

/// The two halves of a sorted order keep its members' facts.
proof fn lemma_halves_facts(
    ssorted: Seq<Hittable>,
    sa: Seq<Hittable>,
    sb: Seq<Hittable>,
    mid: int,
    t0: int,
    t1: int,
)
    requires
        0 <= mid <= ssorted.len(),
        sa == ssorted.subrange(0, mid),
        sb == ssorted.subrange(mid, ssorted.len() as int),
        each_wf(ssorted),
        all_boxed(ssorted, t0, t1),
    ensures
        each_wf(sa),
        each_wf(sb),
        all_boxed(sa, t0, t1),
        all_boxed(sb, t0, t1),
        each_det(ssorted) ==> each_det(sa) && each_det(sb),
{
    assert forall|i: int| 0 <= i < sa.len() implies hittable_wf(#[trigger] sa[i])
        && (bounding_box_v(sa[i], t0, t1)) is Some by {
        assert(sa[i] == ssorted[i]);
    }
    assert forall|i: int| 0 <= i < sb.len() implies hittable_wf(#[trigger] sb[i])
        && (bounding_box_v(sb[i], t0, t1)) is Some by {
        assert(sb[i] == ssorted[mid + i]);
    }
    if each_det(ssorted) {
        assert forall|i: int| 0 <= i < sa.len() implies crate::hittable::deterministic_v(
            #[trigger] sa[i]) by {
            assert(sa[i] == ssorted[i]);
        }
        assert forall|i: int| 0 <= i < sb.len() implies crate::hittable::deterministic_v(
            #[trigger] sb[i]) by {
            assert(sb[i] == ssorted[mid + i]);
        }
    }
}

/// The surrounding box of the two halves' unions is the union over the
/// input order.
proof fn lemma_node_union(
    orig: Seq<Hittable>,
    ssorted: Seq<Hittable>,
    sa: Seq<Hittable>,
    sb: Seq<Hittable>,
    mid: int,
    lb: AabbV,
    rb: AabbV,
    boxv: AabbV,
    t0: int,
    t1: int,
)
    requires
        ssorted.to_multiset() == orig.to_multiset(),
        0 <= mid <= ssorted.len(),
        sa == ssorted.subrange(0, mid),
        sb == ssorted.subrange(mid, ssorted.len() as int),
        is_union_of(lb, sa, t0, t1),
        is_union_of(rb, sb, t0, t1),
        boxv == crate::aabb::surround_v(lb, rb),
    ensures
        is_union_of(boxv, orig, t0, t1),
{
    assert(sa + sb =~= ssorted);
    lemma_union_concat(lb, rb, sa, sb, boxv, t0, t1);
    lemma_union_transfer(boxv, sa + sb, orig, t0, t1);
}

/// A node's leaves are the two halves' leaves, which are the input's
/// leaves in another order.
proof fn lemma_tree_items_node(
    node: Hittable,
    orig: Seq<Hittable>,
    ssorted: Seq<Hittable>,
    sa: Seq<Hittable>,
    sb: Seq<Hittable>,
)
    requires
        node matches Hittable::Bvh(n),
        sa + sb =~= ssorted,
        ssorted.to_multiset() == orig.to_multiset(),
        node matches Hittable::Bvh(n) ==> tree_items(*n.left).to_multiset() == seq_items(
            sa, 0,
        ).to_multiset() && tree_items(*n.right).to_multiset() == seq_items(sb, 0).to_multiset(),
    ensures
        tree_items(node).to_multiset() == seq_items(orig, 0).to_multiset(),
{
    let n = node->Bvh_0;
    vstd::seq_lib::lemma_multiset_commutative(tree_items(*n.left), tree_items(*n.right));
    lemma_items_concat(sa, sb, 0);
    vstd::seq_lib::lemma_multiset_commutative(seq_items(sa, 0), seq_items(sb, 0));
    assert(seq_items(sa + sb, 0) == seq_items(ssorted, 0));
    lemma_items_permuted(ssorted, orig);
}

/// Box consistency of the members carries to the sorted order's halves.
proof fn lemma_members_consistent(
    orig: Seq<Hittable>,
    ssorted: Seq<Hittable>,
    sa: Seq<Hittable>,
    sb: Seq<Hittable>,
    mid: int,
    t0: int,
    t1: int,
)
    requires
        ssorted.to_multiset() == orig.to_multiset(),
        0 <= mid <= ssorted.len(),
        sa == ssorted.subrange(0, mid),
        sb == ssorted.subrange(mid, ssorted.len() as int),
        each_consistent(orig, t0, t1),
    ensures
        each_consistent(sa, t0, t1),
        each_consistent(sb, t0, t1),
{
    orig.to_multiset_ensures();
    ssorted.to_multiset_ensures();
    assert forall|i: int|
        0 <= i < ssorted.len() implies boxes_consistent(#[trigger] ssorted[i], t0, t1) by {
        assert(ssorted.contains(ssorted[i]));
        lemma_member_transfer(ssorted, orig, ssorted[i]);
        let j = choose|j: int| 0 <= j < orig.len() && orig[j] == ssorted[i];
        assert(boxes_consistent(orig[j], t0, t1));
    }
    assert forall|i: int|
        0 <= i < sa.len() implies boxes_consistent(#[trigger] sa[i], t0, t1) by {
        assert(sa[i] == ssorted[i]);
    }
    assert forall|i: int|
        0 <= i < sb.len() implies boxes_consistent(#[trigger] sb[i], t0, t1) by {
        assert(sb[i] == ssorted[mid + i]);
    }
}

/// Membership facts carry over to any reordering of the same members.
proof fn lemma_union_members(orig: Seq<Hittable>, sorted: Seq<Hittable>, t0: int, t1: int)
    requires
        sorted.to_multiset() == orig.to_multiset(),
        each_wf(orig),
        all_boxed(orig, t0, t1),
    ensures
        each_wf(sorted),
        all_boxed(sorted, t0, t1),
        sorted.len() == orig.len(),
{
    orig.to_multiset_ensures();
    sorted.to_multiset_ensures();
    assert forall|i: int| 0 <= i < sorted.len() implies hittable_wf(#[trigger] sorted[i])
        && (bounding_box_v(sorted[i], t0, t1)) is Some by {
        assert(sorted.contains(sorted[i]));
        assert(sorted.to_multiset().count(sorted[i]) > 0);
        assert(orig.contains(sorted[i]));
        let j = choose|j: int| 0 <= j < orig.len() && orig[j] == sorted[i];
        assert(hittable_wf(orig[j]));
        assert(bounding_box_v(orig[j], t0, t1) is Some);
    }
}

/// A single member's parameters are the list's parameters.
proof fn lemma_single_params(x: Hittable, orig: Seq<Hittable>)
    requires
        orig.len() == 1,
        orig[0] == x,
    ensures
        forall|rv: RayV, t: int| #[trigger] is_param(x, rv, t) <==> seq_has_param(orig, rv, t),
{
    assert forall|rv: RayV, t: int| #[trigger] is_param(x, rv, t) <==> seq_has_param(
        orig, rv, t) by {
        if is_param(x, rv, t) {
            assert(is_param(orig[0], rv, t));
        }
        if seq_has_param(orig, rv, t) {
            let j = choose|j: int| 0 <= j < orig.len() && #[trigger] is_param(orig[j], rv, t);
            assert(j == 0);
        }
    }
}

/// A member of one ordering is a member of the other.
proof fn lemma_member_transfer(s1: Seq<Hittable>, s2: Seq<Hittable>, x: Hittable)
    requires
        s1.to_multiset() == s2.to_multiset(),
        s1.contains(x),
    ensures
        s2.contains(x),
{
    s1.to_multiset_ensures();
    s2.to_multiset_ensures();
    assert(s1.to_multiset().count(x) > 0);
}

/// The node's parameters are exactly the input members' parameters.
proof fn lemma_tree_params(
    node: Hittable,
    orig: Seq<Hittable>,
    ssorted: Seq<Hittable>,
    sa: Seq<Hittable>,
    sb: Seq<Hittable>,
    mid: int,
)
    requires
        node matches Hittable::Bvh(n),
        ssorted.to_multiset() == orig.to_multiset(),
        0 <= mid <= ssorted.len(),
        sa == ssorted.subrange(0, mid),
        sb == ssorted.subrange(mid, ssorted.len() as int),
        node matches Hittable::Bvh(n) ==> (forall|rv: RayV, t: int|
            #[trigger] is_param(*n.left, rv, t) <==> seq_has_param(sa, rv, t)),
        node matches Hittable::Bvh(n) ==> (forall|rv: RayV, t: int|
            #[trigger] is_param(*n.right, rv, t) <==> seq_has_param(sb, rv, t)),
    ensures
        forall|rv: RayV, t: int| #[trigger] is_param(node, rv, t) <==> seq_has_param(orig, rv, t),
{
    let n = node->Bvh_0;
    assert forall|rv: RayV, t: int| #[trigger] is_param(node, rv, t) <==> seq_has_param(
        orig, rv, t) by {
        if is_param(node, rv, t) {
            if is_param(*n.left, rv, t) {
                assert(seq_has_param(sa, rv, t));
                let j = choose|j: int| 0 <= j < sa.len() && #[trigger] is_param(sa[j], rv, t);
                assert(sa[j] == ssorted[j]);
                assert(ssorted.contains(ssorted[j]));
                lemma_member_transfer(ssorted, orig, ssorted[j]);
                let i = choose|i: int| 0 <= i < orig.len() && orig[i] == ssorted[j];
                assert(is_param(orig[i], rv, t));
                assert(seq_has_param(orig, rv, t));
            } else {
                assert(is_param(*n.right, rv, t));
                assert(seq_has_param(sb, rv, t));
                let j = choose|j: int| 0 <= j < sb.len() && #[trigger] is_param(sb[j], rv, t);
                assert(sb[j] == ssorted[mid + j]);
                assert(ssorted.contains(ssorted[mid + j]));
                lemma_member_transfer(ssorted, orig, ssorted[mid + j]);
                let i = choose|i: int| 0 <= i < orig.len() && orig[i] == ssorted[mid + j];
                assert(is_param(orig[i], rv, t));
                assert(seq_has_param(orig, rv, t));
            }
        }
        if seq_has_param(orig, rv, t) {
            let i = choose|i: int| 0 <= i < orig.len() && #[trigger] is_param(orig[i], rv, t);
            assert(orig.contains(orig[i]));
            lemma_member_transfer(orig, ssorted, orig[i]);
            let k = choose|k: int| 0 <= k < ssorted.len() && ssorted[k] == orig[i];
            if k < mid {
                assert(sa[k] == ssorted[k]);
                assert(is_param(sa[k], rv, t));
                assert(seq_has_param(sa, rv, t));
                assert(is_param(*n.left, rv, t));
            } else {
                assert(sb[k - mid] == ssorted[k]);
                assert(is_param(sb[k - mid], rv, t));
                assert(seq_has_param(sb, rv, t));
                assert(is_param(*n.right, rv, t));
            }
            assert(is_param(node, rv, t));
        }
    }
}

/// Member cover facts carry to the sorted order and its halves.
proof fn lemma_members_covered_boxed(
    orig: Seq<Hittable>,
    ssorted: Seq<Hittable>,
    sa: Seq<Hittable>,
    sb: Seq<Hittable>,
    mid: int,
    t0: int,
    t1: int,
)
    requires
        ssorted.to_multiset() == orig.to_multiset(),
        0 <= mid <= ssorted.len(),
        sa == ssorted.subrange(0, mid),
        sb == ssorted.subrange(mid, ssorted.len() as int),
        each_covered_boxed(orig, t0, t1),
    ensures
        each_covered_boxed(sa, t0, t1),
        each_covered_boxed(sb, t0, t1),
{
    orig.to_multiset_ensures();
    ssorted.to_multiset_ensures();
    assert forall|i: int|
        0 <= i < ssorted.len() implies covered_v(#[trigger] ssorted[i]) && box_covers_params(
        ssorted[i], t0, t1) by {
        assert(ssorted.contains(ssorted[i]));
        lemma_member_transfer(ssorted, orig, ssorted[i]);
        let j = choose|j: int| 0 <= j < orig.len() && orig[j] == ssorted[i];
        assert(covered_v(orig[j]) && box_covers_params(orig[j], t0, t1));
    }
    assert forall|i: int|
        0 <= i < sa.len() implies covered_v(#[trigger] sa[i]) && box_covers_params(
        sa[i], t0, t1) by {
        assert(sa[i] == ssorted[i]);
    }
    assert forall|i: int|
        0 <= i < sb.len() implies covered_v(#[trigger] sb[i]) && box_covers_params(
        sb[i], t0, t1) by {
        assert(sb[i] == ssorted[mid + i]);
    }
}

/// A node whose box is the union of members' boxes is covered, provided
/// the members are covered and their own boxes cover their hits.
proof fn lemma_tree_covered(node: Hittable, orig: Seq<Hittable>, t0: int, t1: int)
    requires
        node matches Hittable::Bvh(n),
        node matches Hittable::Bvh(n) ==> covered_v(*n.left) && covered_v(*n.right),
        node matches Hittable::Bvh(n) ==> is_union_of(n.bounding_box@, orig, t0, t1),
        forall|rv: RayV, t: int| #[trigger] is_param(node, rv, t) <==> seq_has_param(orig, rv, t),
        each_covered_boxed(orig, t0, t1),
    ensures
        covered_v(node),
{
    let n = node->Bvh_0;
    assert forall|rv: RayV, tmin: int, tmax: int, t: int|
        #![trigger is_param(*n.left, rv, t), aabb_hit_v(n.bounding_box@, rv, tmin, tmax)]
        #![trigger is_param(*n.right, rv, t), aabb_hit_v(n.bounding_box@, rv, tmin, tmax)]
        ((is_param(*n.left, rv, t) || is_param(*n.right, rv, t)) && tmin <= t <= tmax)
            implies aabb_hit_v(n.bounding_box@, rv, tmin, tmax) by {
        assert(is_param(node, rv, t));
        assert(seq_has_param(orig, rv, t));
        let j = choose|j: int| 0 <= j < orig.len() && #[trigger] is_param(orig[j], rv, t);
        assert(covered_v(orig[j]) && box_covers_params(orig[j], t0, t1));
        assert(aabb_hit_v(item_box(orig[j], t0, t1), rv, tmin, tmax));
        assert(box_encloses_v(n.bounding_box@, item_box(orig[j], t0, t1)));
        crate::aabb::lemma_aabb_hit_mono(
            n.bounding_box@,
            item_box(orig[j], t0, t1),
            rv,
            tmin,
            tmax,
        );
    }
}

} // verus!
