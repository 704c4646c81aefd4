//! Kernel reproduction of quantized contact evidence.
use vstd::prelude::*;

use crate::arith::abs_int;
use crate::collide::{contact, spec_contact};
use crate::physics::{HullWitness, PoseMm, QuantizedContact, ShapeKind};
use crate::shape::{cooked_as, cooked_shape, GeomError, Shape};
use crate::space::{AabbMm, IVec3};
use crate::units::Epoch;

verus! {

/// Point Chebyshev tolerance when reproducing a claimed contact, millimetres.
pub const POINT_SLOP_MM: i32 = 4;

/// Packed-normal component tolerance (32767 scale).
pub const NORMAL_SLOP: i16 = 2_048;

/// Largest per-axis distance (Chebyshev distance), exactly.
pub open spec fn spec_chebyshev(a: IVec3, b: IVec3) -> int {
    let dx = abs_int(a.x - b.x);
    let dy = abs_int(a.y - b.y);
    let dz = abs_int(a.z - b.z);
    let m = if dx > dy {
        dx
    } else {
        dy
    };
    if m > dz {
        m
    } else {
        dz
    }
}

fn abs_diff(a: i32, b: i32) -> (r: i64)
    ensures
        r == abs_int(a - b),
{
    let d = (a as i64) - (b as i64);
    if d < 0 {
        -d
    } else {
        d
    }
}

fn chebyshev(a: IVec3, b: IVec3) -> (r: i64)
    ensures
        r == spec_chebyshev(a, b),
{
    let dx = abs_diff(a.x, b.x);
    let dy = abs_diff(a.y, b.y);
    let dz = abs_diff(a.z, b.z);
    let m = if dx > dy {
        dx
    } else {
        dy
    };
    if m > dz {
        m
    } else {
        dz
    }
}

/// `claimed` reproduces `computed`: a claimed positive depth has a non-zero
/// normal, depths agree within the contact slop, points within 4 mm per
/// axis, normals within 2048 per component and not opposed.
pub open spec fn spec_evidence_matches(computed: QuantizedContact, claimed: QuantizedContact) -> bool {
    &&& !(claimed.normal == (0i16, 0i16, 0i16) && claimed.depth_mm > 0)
    &&& abs_int(claimed.depth_mm - computed.depth_mm) <= crate::cast::CONTACT_SLOP_MM
    &&& spec_chebyshev(claimed.point, computed.point) <= POINT_SLOP_MM
    &&& abs_int(claimed.normal.0 - computed.normal.0) <= 2048
    &&& abs_int(claimed.normal.1 - computed.normal.1) <= 2048
    &&& abs_int(claimed.normal.2 - computed.normal.2) <= 2048
    &&& claimed.normal.0 * computed.normal.0 + claimed.normal.1 * computed.normal.1
        + claimed.normal.2 * computed.normal.2 >= 0
}

/// True when `claimed` is a kernel-reproducible copy of `computed`.
pub fn evidence_matches(computed: QuantizedContact, claimed: QuantizedContact) -> (r: bool)
    ensures
        r == spec_evidence_matches(computed, claimed),
{
    let (c0, c1, c2) = claimed.normal;
    let (k0, k1, k2) = computed.normal;
    if c0 == 0 && c1 == 0 && c2 == 0 && claimed.depth_mm > 0 {
        return false;
    }
    if abs_diff(claimed.depth_mm, computed.depth_mm) > crate::cast::CONTACT_SLOP_MM as i64 {
        return false;
    }
    if chebyshev(claimed.point, computed.point) > POINT_SLOP_MM as i64 {
        return false;
    }
    if abs_diff(c0 as i32, k0 as i32) > 2048 || abs_diff(c1 as i32, k1 as i32) > 2048 || abs_diff(
        c2 as i32,
        k2 as i32,
    ) > 2048 {
        return false;
    }
    proof {
        assert(-0x4000_0000 <= c0 * k0 <= 0x4000_0000) by (nonlinear_arith)
            requires
                -32768 <= c0 <= 32767,
                -32768 <= k0 <= 32767,
        {
        }
        assert(-0x4000_0000 <= c1 * k1 <= 0x4000_0000) by (nonlinear_arith)
            requires
                -32768 <= c1 <= 32767,
                -32768 <= k1 <= 32767,
        {
        }
        assert(-0x4000_0000 <= c2 * k2 <= 0x4000_0000) by (nonlinear_arith)
            requires
                -32768 <= c2 <= 32767,
                -32768 <= k2 <= 32767,
        {
        }
    }
    let dot = (c0 as i64) * (k0 as i64) + (c1 as i64) * (k1 as i64) + (c2 as i64) * (k2 as i64);
    dot >= 0
}

/// Kernel verdict on a witness: the epoch must be live, the claimed kind
/// dynamic, evidence present, the shapes in contact, and the evidence must
/// reproduce the computed contact, which is returned.
pub open spec fn spec_verify_contact(
    witness: HullWitness,
    live_epoch: Epoch,
    a: Shape,
    pose_a: PoseMm,
    b: Shape,
    pose_b: PoseMm,
) -> Result<QuantizedContact, GeomError> {
    if witness.epoch != live_epoch {
        Err(GeomError::Malformed)
    } else if !witness.shape.spec_is_dynamic() {
        Err(GeomError::Unsupported)
    } else if witness.evidence is None {
        Err(GeomError::Malformed)
    } else {
        match spec_contact(a, pose_a, b, pose_b) {
            Err(e) => Err(e),
            Ok(None) => Err(GeomError::Malformed),
            Ok(Some(computed)) => if spec_evidence_matches(computed, witness.evidence->Some_0) {
                Ok(computed)
            } else {
                Err(GeomError::Malformed)
            },
        }
    }
}

/// Reproduce a gameplay contact named by `witness` between `a` and `b`.
pub fn verify_contact(
    witness: HullWitness,
    live_epoch: Epoch,
    a: Shape,
    pose_a: PoseMm,
    b: Shape,
    pose_b: PoseMm,
) -> (r: Result<QuantizedContact, GeomError>)
    requires
        a.spec_well_formed(),
        b.spec_well_formed(),
    ensures
        r == spec_verify_contact(witness, live_epoch, a, pose_a, b, pose_b),
{
    if witness.epoch != live_epoch {
        return Err(GeomError::Malformed);
    }
    if !witness.shape.is_dynamic() {
        return Err(GeomError::Unsupported);
    }
    let claimed = match witness.evidence {
        Some(c) => c,
        None => return Err(GeomError::Malformed),
    };
    let computed = match contact(a, pose_a, b, pose_b) {
        Err(e) => return Err(e),
        Ok(None) => return Err(GeomError::Malformed),
        Ok(Some(c)) => c,
    };
    if !evidence_matches(computed, claimed) {
        return Err(GeomError::Malformed);
    }
    Ok(computed)
}

/// Cooked shapes are well formed.
pub proof fn lemma_cooked_well_formed(kind: ShapeKind, local: AabbMm, s: Shape)
    requires
        cooked_as(kind, local, Ok(s)),
    ensures
        s.spec_well_formed(),
{
    if kind is Compound {
        if let Shape::Compound { parts, len } = s {
            assert forall|i: int| 0 <= i < crate::shape::MAX_COMPOUND_PARTS implies #[trigger] parts@[i].shape.spec_well_formed() by {
                assert(parts@[i] == crate::shape::padded_parts(
                    seq![
                        crate::shape::CompoundPart {
                            shape: crate::shape::PrimitiveShape::OrientedBox { local },
                            local_pose: crate::shape::CompoundPart::spec_default().local_pose,
                        },
                    ],
                )[i]);
            }
        }
    }
}

/// Both hulls cooked from their stored extents, then verified.
pub open spec fn spec_verify_cooked(
    witness: HullWitness,
    live_epoch: Epoch,
    kind_a: ShapeKind,
    local_a: AabbMm,
    pose_a: PoseMm,
    kind_b: ShapeKind,
    local_b: AabbMm,
    pose_b: PoseMm,
    a: Result<Shape, GeomError>,
    b: Result<Shape, GeomError>,
) -> Result<QuantizedContact, GeomError> {
    match a {
        Err(e) => Err(e),
        Ok(sa) => match b {
            Err(e) => Err(e),
            Ok(sb) => spec_verify_contact(witness, live_epoch, sa, pose_a, sb, pose_b),
        },
    }
}

/// Cook both hulls and verify. Used by commit when only AABB extents are stored.
pub fn verify_cooked(
    witness: HullWitness,
    live_epoch: Epoch,
    kind_a: ShapeKind,
    local_a: AabbMm,
    pose_a: PoseMm,
    kind_b: ShapeKind,
    local_b: AabbMm,
    pose_b: PoseMm,
) -> (r: Result<QuantizedContact, GeomError>)
    ensures
        local_a.spec_is_empty() ==> r == Err::<QuantizedContact, GeomError>(GeomError::Malformed),
        exists|a: Result<Shape, GeomError>, b: Result<Shape, GeomError>|
            cooked_as(kind_a, local_a, a) && cooked_as(kind_b, local_b, b) && r == spec_verify_cooked(
                witness,
                live_epoch,
                kind_a,
                local_a,
                pose_a,
                kind_b,
                local_b,
                pose_b,
                a,
                b,
            ),
{
    let a = cooked_shape(kind_a, local_a);
    let b = cooked_shape(kind_b, local_b);
    let r = match a {
        Err(e) => Err(e),
        Ok(sa) => match b {
            Err(e) => Err(e),
            Ok(sb) => {
                proof {
                    lemma_cooked_well_formed(kind_a, local_a, sa);
                    lemma_cooked_well_formed(kind_b, local_b, sb);
                }
                verify_contact(witness, live_epoch, sa, pose_a, sb, pose_b)
            },
        },
    };
    assert(cooked_as(kind_a, local_a, a) && cooked_as(kind_b, local_b, b) && r == spec_verify_cooked(
        witness,
        live_epoch,
        kind_a,
        local_a,
        pose_a,
        kind_b,
        local_b,
        pose_b,
        a,
        b,
    ));
    r
}

} // verus!
