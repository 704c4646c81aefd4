//! Contact dispatch over shape pairs, compound children, and penetration.
use vstd::prelude::*;

use crate::convex::{convex_poly_contact, spec_convex_poly_contact};
use crate::kernels::{
    capsule_capsule, capsule_obb, sphere_capsule, sphere_obb_at, sphere_points,
    spec_capsule_capsule, spec_capsule_obb, spec_sphere_capsule, spec_sphere_obb_at,
    spec_sphere_points,
};
use crate::narrow::{obb_obb, spec_obb_obb};
use crate::physics::{PoseMm, QuantizedContact};
use crate::query::{compose_pose, posed_point, spec_compose, spec_posed};
use crate::shape::{CompoundPart, GeomError, Shape, MAX_COMPOUND_PARTS};

verus! {

/// Contact of two non-compound shapes by the kernel for their pair of kinds.
/// Sphere or capsule against a convex hull is not supported.
#[verifier::opaque]
pub open spec fn spec_pair_contact(a: Shape, pa: PoseMm, b: Shape, pb: PoseMm) -> Result<
    Option<QuantizedContact>,
    GeomError,
> {
    match (a, b) {
        (Shape::Convex { .. }, Shape::Convex { .. })
        | (Shape::Convex { .. }, Shape::OrientedBox { .. })
        | (Shape::OrientedBox { .. }, Shape::Convex { .. }) => spec_convex_poly_contact(a, pa, b, pb),
        (Shape::OrientedBox { local: la }, Shape::OrientedBox { local: lb }) => Ok(
            spec_obb_obb(la, pa, lb, pb),
        ),
        (
            Shape::Sphere { local_center: ca, radius_mm: ra },
            Shape::Sphere { local_center: cb, radius_mm: rb },
        ) => Ok(spec_sphere_points(spec_posed(ca, pa), ra, spec_posed(cb, pb), rb, 0)),
        (
            Shape::Capsule { local_center: ca, radius_mm: ra, half_height_mm: ha },
            Shape::Capsule { local_center: cb, radius_mm: rb, half_height_mm: hb },
        ) => Ok(spec_capsule_capsule(ca, ra, ha, pa, cb, rb, hb, pb)),
        (Shape::Sphere { local_center, radius_mm }, Shape::OrientedBox { local }) => Ok(
            spec_sphere_obb_at(spec_posed(local_center, pa), radius_mm, local, pb, false),
        ),
        (Shape::OrientedBox { local }, Shape::Sphere { local_center, radius_mm }) => Ok(
            spec_sphere_obb_at(spec_posed(local_center, pb), radius_mm, local, pa, true),
        ),
        (Shape::Capsule { local_center, radius_mm, half_height_mm }, Shape::OrientedBox { local }) => Ok(
            spec_capsule_obb(local_center, radius_mm, half_height_mm, pa, local, pb, false),
        ),
        (Shape::OrientedBox { local }, Shape::Capsule { local_center, radius_mm, half_height_mm }) => Ok(
            spec_capsule_obb(local_center, radius_mm, half_height_mm, pb, local, pa, true),
        ),
        (
            Shape::Sphere { local_center, radius_mm },
            Shape::Capsule { local_center: cc, radius_mm: rc, half_height_mm },
        ) => Ok(
            spec_sphere_capsule(spec_posed(local_center, pa), radius_mm, cc, rc, half_height_mm, pb, false),
        ),
        (
            Shape::Capsule { local_center: cc, radius_mm: rc, half_height_mm },
            Shape::Sphere { local_center, radius_mm },
        ) => Ok(
            spec_sphere_capsule(spec_posed(local_center, pb), radius_mm, cc, rc, half_height_mm, pa, true),
        ),
        _ => Err(GeomError::Unsupported),
    }
}

/// One for a compound, zero otherwise.
pub open spec fn compound_flag(s: Shape) -> nat {
    if s is Compound {
        1nat
    } else {
        0nat
    }
}

/// Number of compounds among the two shapes.
pub open spec fn compound_count(a: Shape, b: Shape) -> nat {
    compound_flag(a) + compound_flag(b)
}

/// Contact of `a` at `pa` with `b` at `pb`: `Ok(None)` when separated.
/// A compound takes the deepest contact of its children.
#[verifier::opaque]
pub open spec fn spec_contact(a: Shape, pa: PoseMm, b: Shape, pb: PoseMm) -> Result<
    Option<QuantizedContact>,
    GeomError,
>
    decreases compound_count(a, b), 2nat, 0nat,
{
    match a {
        Shape::Compound { parts, len } => spec_compound_contact(parts@, len, pa, b, pb, false),
        _ => match b {
            Shape::Compound { parts, len } => spec_compound_contact(parts@, len, pb, a, pa, true),
            _ => spec_pair_contact(a, pa, b, pb),
        },
    }
}

/// A child hit relabelled with the child index in the high byte.
pub open spec fn relabel(h: QuantizedContact, i: int) -> QuantizedContact {
    QuantizedContact { feature: (i * 256 + h.feature % 256) as u16, ..h }
}

/// `h` beats `old`: deeper, or as deep with a smaller feature.
pub open spec fn deeper(h: QuantizedContact, old: QuantizedContact) -> bool {
    h.depth_mm > old.depth_mm || (h.depth_mm == old.depth_mm && h.feature < old.feature)
}

/// Contact of compound child `i` with the other shape (in the caller's order).
pub open spec fn child_contact(
    parts: Seq<CompoundPart>,
    cpose: PoseMm,
    other: Shape,
    opose: PoseMm,
    flip: bool,
    i: int,
) -> Result<Option<QuantizedContact>, GeomError>
    decreases 1 + compound_flag(other), 0nat, 0nat,
{
    let cs = parts[i].shape.spec_as_shape();
    let cp = spec_compose(cpose, parts[i].local_pose);
    if flip {
        spec_contact(other, opose, cs, cp)
    } else {
        spec_contact(cs, cp, other, opose)
    }
}

/// Deepest relabelled hit among the first `k` compound children; a child
/// failure fails the whole.
pub open spec fn compound_fold(
    parts: Seq<CompoundPart>,
    cpose: PoseMm,
    other: Shape,
    opose: PoseMm,
    flip: bool,
    k: nat,
) -> Result<Option<QuantizedContact>, GeomError>
    decreases 1 + compound_flag(other), 1nat, k,
{
    if k == 0 {
        Ok(None)
    } else {
        match compound_fold(parts, cpose, other, opose, flip, (k - 1) as nat) {
            Err(e) => Err(e),
            Ok(best) => match child_contact(parts, cpose, other, opose, flip, k - 1) {
                Err(e) => Err(e),
                Ok(hit) => Ok(spec_fold_best(best, hit, k - 1)),
            },
        }
    }
}

/// Contact of a compound (children posed under `cpose`) with another shape.
/// `flip` keeps the caller's argument order for the child queries.
pub open spec fn spec_compound_contact(
    parts: Seq<CompoundPart>,
    len: u8,
    cpose: PoseMm,
    other: Shape,
    opose: PoseMm,
    flip: bool,
) -> Result<Option<QuantizedContact>, GeomError>
    decreases 1 + compound_flag(other), 1nat, 9nat,
{
    if len == 0 || len > MAX_COMPOUND_PARTS {
        Err(GeomError::Malformed)
    } else {
        compound_fold(parts, cpose, other, opose, flip, len as nat)
    }
}

/// The non-compound pair kernels.
fn pair_contact(a: Shape, pa: PoseMm, b: Shape, pb: PoseMm) -> (r: Result<Option<QuantizedContact>, GeomError>)
    requires
        a.spec_well_formed(),
        b.spec_well_formed(),
    ensures
        r == spec_pair_contact(a, pa, b, pb),
{
    reveal(spec_pair_contact);
    match (a, b) {
        (Shape::Convex { .. }, Shape::Convex { .. })
        | (Shape::Convex { .. }, Shape::OrientedBox { .. })
        | (Shape::OrientedBox { .. }, Shape::Convex { .. }) => convex_poly_contact(a, pa, b, pb),
        (Shape::OrientedBox { local: la }, Shape::OrientedBox { local: lb }) => Ok(
            obb_obb(la, pa, lb, pb),
        ),
        (
            Shape::Sphere { local_center: ca, radius_mm: ra },
            Shape::Sphere { local_center: cb, radius_mm: rb },
        ) => Ok(sphere_points(posed_point(ca, pa), ra, posed_point(cb, pb), rb, 0)),
        (
            Shape::Capsule { local_center: ca, radius_mm: ra, half_height_mm: ha },
            Shape::Capsule { local_center: cb, radius_mm: rb, half_height_mm: hb },
        ) => Ok(capsule_capsule(ca, ra, ha, pa, cb, rb, hb, pb)),
        (Shape::Sphere { local_center, radius_mm }, Shape::OrientedBox { local }) => Ok(
            sphere_obb_at(posed_point(local_center, pa), radius_mm, local, pb, false),
        ),
        (Shape::OrientedBox { local }, Shape::Sphere { local_center, radius_mm }) => Ok(
            sphere_obb_at(posed_point(local_center, pb), radius_mm, local, pa, true),
        ),
        (Shape::Capsule { local_center, radius_mm, half_height_mm }, Shape::OrientedBox { local }) => Ok(
            capsule_obb(local_center, radius_mm, half_height_mm, pa, local, pb, false),
        ),
        (Shape::OrientedBox { local }, Shape::Capsule { local_center, radius_mm, half_height_mm }) => Ok(
            capsule_obb(local_center, radius_mm, half_height_mm, pb, local, pa, true),
        ),
        (
            Shape::Sphere { local_center, radius_mm },
            Shape::Capsule { local_center: cc, radius_mm: rc, half_height_mm },
        ) => Ok(
            sphere_capsule(posed_point(local_center, pa), radius_mm, cc, rc, half_height_mm, pb, false),
        ),
        (
            Shape::Capsule { local_center: cc, radius_mm: rc, half_height_mm },
            Shape::Sphere { local_center, radius_mm },
        ) => Ok(
            sphere_capsule(posed_point(local_center, pb), radius_mm, cc, rc, half_height_mm, pa, true),
        ),
        _ => Err(GeomError::Unsupported),
    }
}

/// Kernel-reproducible contact of `a` at `pose_a` with `b` at `pose_b`:
/// `Ok(None)` when separated (open gaps included). A compound takes the
/// deepest contact of its children, with the child index in the high byte
/// of the feature.
pub fn contact(a: Shape, pose_a: PoseMm, b: Shape, pose_b: PoseMm) -> (r: Result<
    Option<QuantizedContact>,
    GeomError,
>)
    requires
        a.spec_well_formed(),
        b.spec_well_formed(),
    ensures
        r == spec_contact(a, pose_a, b, pose_b),
    decreases compound_count(a, b), 2nat, 0nat,
{
    reveal(spec_contact);
    match a {
        Shape::Compound { parts, len } => compound_contact(parts, len, pose_a, b, pose_b, false),
        _ => match b {
            Shape::Compound { parts, len } => compound_contact(parts, len, pose_b, a, pose_a, true),
            _ => pair_contact(a, pose_a, b, pose_b),
        },
    }
}

/// Children of a well-formed compound are well-formed shapes.
proof fn lemma_child_well_formed(parts: [CompoundPart; MAX_COMPOUND_PARTS], i: int)
    requires
        crate::shape::parts_well_formed(parts),
        0 <= i < MAX_COMPOUND_PARTS,
    ensures
        parts@[i].shape.spec_as_shape().spec_well_formed(),
        !(parts@[i].shape.spec_as_shape() is Compound),
{
    assert(parts@[i].shape.spec_well_formed());
}

#[verifier::rlimit(50)]
fn compound_contact(
    parts: [CompoundPart; MAX_COMPOUND_PARTS],
    len: u8,
    cpose: PoseMm,
    other: Shape,
    opose: PoseMm,
    flip: bool,
) -> (r: Result<Option<QuantizedContact>, GeomError>)
    requires
        crate::shape::parts_well_formed(parts),
        other.spec_well_formed(),
    ensures
        r == spec_compound_contact(parts@, len, cpose, other, opose, flip),
    decreases 1 + compound_flag(other), 1nat, 9nat,
{
    if len == 0 || len as usize > MAX_COMPOUND_PARTS {
        return Err(GeomError::Malformed);
    }
    let n = len as usize;
    let mut best: Option<QuantizedContact> = None;
    let mut i: usize = 0;
    while i < n
        invariant
            0 <= i <= n,
            n == len,
            1 <= n <= MAX_COMPOUND_PARTS,
            crate::shape::parts_well_formed(parts),
            other.spec_well_formed(),
            compound_fold(parts@, cpose, other, opose, flip, i as nat) == Ok::<
                Option<QuantizedContact>,
                GeomError,
            >(best),
        decreases n - i,
    {
        let hit = child_hit(parts, cpose, other, opose, flip, i);
        match hit {
            Err(e) => {
                proof {
                    lemma_compound_fold_err(parts@, cpose, other, opose, flip, (i + 1) as nat, n as nat);
                }
                return Err(e);
            },
            Ok(h) => {
                best = fold_best(best, h, i);
            },
        }
        i = i + 1;
    }
    Ok(best)
}

/// Contact of compound child `i` with the other shape.
fn child_hit(
    parts: [CompoundPart; MAX_COMPOUND_PARTS],
    cpose: PoseMm,
    other: Shape,
    opose: PoseMm,
    flip: bool,
    i: usize,
) -> (r: Result<Option<QuantizedContact>, GeomError>)
    requires
        crate::shape::parts_well_formed(parts),
        other.spec_well_formed(),
        i < MAX_COMPOUND_PARTS,
    ensures
        r == child_contact(parts@, cpose, other, opose, flip, i as int),
    decreases 1 + compound_flag(other), 0nat, 0nat,
{
    let part = parts[i];
    proof {
        lemma_child_well_formed(parts, i as int);
    }
    let cs = part.shape.as_shape();
    let cp = compose_pose(cpose, part.local_pose);
    reveal(spec_contact);
    assert(cs == parts@[i as int].shape.spec_as_shape());
    assert(cp == spec_compose(cpose, parts@[i as int].local_pose));
    if flip {
        contact(other, opose, cs, cp)
    } else {
        contact(cs, cp, other, opose)
    }
}

/// The running best after child `i` reported `hit`.
pub open spec fn spec_fold_best(best: Option<QuantizedContact>, hit: Option<QuantizedContact>, i: int) -> Option<QuantizedContact> {
    match hit {
        None => best,
        Some(h) => {
            let h2 = relabel(h, i);
            if best is None || deeper(h2, best->Some_0) {
                Some(h2)
            } else {
                best
            }
        },
    }
}

fn fold_best(best: Option<QuantizedContact>, hit: Option<QuantizedContact>, i: usize) -> (r: Option<QuantizedContact>)
    requires
        i < MAX_COMPOUND_PARTS,
    ensures
        r == spec_fold_best(best, hit, i as int),
{
    match hit {
        None => best,
        Some(h) => {
            let h2 = QuantizedContact { feature: (i as u16) * 256 + h.feature % 256, ..h };
            let take = match best {
                None => true,
                Some(old) => h2.depth_mm > old.depth_mm || (h2.depth_mm == old.depth_mm
                    && h2.feature < old.feature),
            };
            if take {
                Some(h2)
            } else {
                best
            }
        },
    }
}

/// Once a child fails, the whole compound query fails the same way.
proof fn lemma_compound_fold_err(
    parts: Seq<CompoundPart>,
    cpose: PoseMm,
    other: Shape,
    opose: PoseMm,
    flip: bool,
    k: nat,
    m: nat,
)
    requires
        1 <= k <= m,
        compound_fold(parts, cpose, other, opose, flip, k) is Err,
    ensures
        compound_fold(parts, cpose, other, opose, flip, m) == compound_fold(
            parts,
            cpose,
            other,
            opose,
            flip,
            k,
        ),
    decreases m,
{
    if m > k {
        lemma_compound_fold_err(parts, cpose, other, opose, flip, k, (m - 1) as nat);
    }
}

/// Penetration depth of a contact, if any.
pub open spec fn spec_penetration(a: Shape, pa: PoseMm, b: Shape, pb: PoseMm) -> Result<Option<i32>, GeomError> {
    match spec_contact(a, pa, b, pb) {
        Err(e) => Err(e),
        Ok(None) => Ok(None),
        Ok(Some(c)) => Ok(Some(c.depth_mm)),
    }
}

/// Penetration in millimetres. `None` if separated; zero is touching.
pub fn penetration_mm(a: Shape, pose_a: PoseMm, b: Shape, pose_b: PoseMm) -> (r: Result<
    Option<i32>,
    GeomError,
>)
    requires
        a.spec_well_formed(),
        b.spec_well_formed(),
    ensures
        r == spec_penetration(a, pose_a, b, pose_b),
{
    match contact(a, pose_a, b, pose_b) {
        Err(e) => Err(e),
        Ok(None) => Ok(None),
        Ok(Some(c)) => Ok(Some(c.depth_mm)),
    }
}

} // verus!
