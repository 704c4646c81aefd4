//! Cooked collision primitives and their admitted coordinate range.
use vstd::prelude::*;

use crate::physics::{PoseMm, ShapeKind};
use crate::space::{AabbMm, IVec3};
use crate::units::{Mm, YawMd};

verus! {

/// Consensus cap for vertices in one cooked convex hull.
pub const MAX_CONVEX_VERTICES: usize = 16;

/// Consensus cap for children in one cooked compound hull.
pub const MAX_COMPOUND_PARTS: usize = 8;

/// Why a query refused to run.
#[derive(Copy, Clone, PartialEq, Eq, Structural, Hash, Debug)]
pub enum GeomError {
    /// Empty AABB, negative radius, or overflow-prone extents.
    Malformed,
    /// Kind is not implemented here.
    Unsupported,
}

/// Canonical primitive. Local geometry is millimetres about the locus origin.
#[derive(Copy, Clone, PartialEq, Eq, Hash, Debug)]
pub enum Shape {
    /// Local AABB rotated by the pose attitude.
    OrientedBox {
        /// Inclusive local extents.
        local: AabbMm,
    },
    /// Sphere about a local centre.
    Sphere {
        /// Local centre, millimetres.
        local_center: IVec3,
        /// Radius, millimetres.
        radius_mm: i32,
    },
    /// Capsule whose segment is local Y through `local_center`.
    Capsule {
        /// Local segment midpoint.
        local_center: IVec3,
        /// Radius, millimetres.
        radius_mm: i32,
        /// Half-length of the segment, millimetres.
        half_height_mm: i32,
    },
    /// Bounded convex point cloud in canonical order.
    Convex {
        /// Fixed storage; only the first `len` entries participate.
        vertices: [IVec3; MAX_CONVEX_VERTICES],
        /// Number of live vertices.
        len: u8,
    },
    /// Bounded union of non-compound children in canonical order.
    Compound {
        /// Fixed child storage; only the first `len` entries participate.
        parts: [CompoundPart; MAX_COMPOUND_PARTS],
        /// Number of live children.
        len: u8,
    },
}

/// One locally posed child of a compound hull.
#[derive(Copy, Clone, PartialEq, Eq, Hash, Debug)]
pub struct CompoundPart {
    /// Child geometry. Recursive compounds are impossible by construction.
    pub shape: PrimitiveShape,
    /// Child pose relative to the locus origin.
    pub local_pose: PoseMm,
}

/// A non-compound shape that may appear inside a compound.
#[derive(Copy, Clone, PartialEq, Eq, Hash, Debug)]
pub enum PrimitiveShape {
    /// Oriented local box.
    OrientedBox {
        /// Inclusive local extents.
        local: AabbMm,
    },
    /// Sphere.
    Sphere {
        /// Local centre.
        local_center: IVec3,
        /// Radius.
        radius_mm: i32,
    },
    /// Y-axis capsule.
    Capsule {
        /// Local segment midpoint.
        local_center: IVec3,
        /// Radius.
        radius_mm: i32,
        /// Segment half-length.
        half_height_mm: i32,
    },
    /// Convex point cloud.
    Convex {
        /// Fixed vertex storage.
        vertices: [IVec3; MAX_CONVEX_VERTICES],
        /// Number of live vertices.
        len: u8,
    },
}

impl PrimitiveShape {
    /// The same geometry as a top-level shape.
    pub open spec fn spec_as_shape(self) -> Shape {
        match self {
            PrimitiveShape::OrientedBox { local } => Shape::OrientedBox { local },
            PrimitiveShape::Sphere { local_center, radius_mm } => Shape::Sphere { local_center, radius_mm },
            PrimitiveShape::Capsule { local_center, radius_mm, half_height_mm } => Shape::Capsule {
                local_center,
                radius_mm,
                half_height_mm,
            },
            PrimitiveShape::Convex { vertices, len } => Shape::Convex { vertices, len },
        }
    }

    /// Oriented boxes are non-empty.
    pub open spec fn spec_well_formed(self) -> bool {
        match self {
            PrimitiveShape::OrientedBox { local } => !local.spec_is_empty(),
            _ => true,
        }
    }

    /// The same geometry as a top-level shape.
    pub fn as_shape(self) -> (r: Shape)
        ensures
            r == self.spec_as_shape(),
    {
        match self {
            PrimitiveShape::OrientedBox { local } => Shape::OrientedBox { local },
            PrimitiveShape::Sphere { local_center, radius_mm } => Shape::Sphere { local_center, radius_mm },
            PrimitiveShape::Capsule { local_center, radius_mm, half_height_mm } => Shape::Capsule {
                local_center,
                radius_mm,
                half_height_mm,
            },
            PrimitiveShape::Convex { vertices, len } => Shape::Convex { vertices, len },
        }
    }
}

impl CompoundPart {
    /// The zero-radius sphere at the origin, at the identity pose.
    pub open spec fn spec_default() -> CompoundPart {
        CompoundPart {
            shape: PrimitiveShape::Sphere { local_center: IVec3 { x: 0, y: 0, z: 0 }, radius_mm: 0 },
            local_pose: PoseMm { x: Mm(0), y: Mm(0), z: Mm(0), yaw: YawMd(0), pitch: YawMd(0), roll: YawMd(0) },
        }
    }

}

impl Default for CompoundPart {
    fn default() -> (r: Self)
        ensures
            r == CompoundPart::spec_default(),
    {
        CompoundPart {
            shape: PrimitiveShape::Sphere { local_center: IVec3::zero(), radius_mm: 0 },
            local_pose: PoseMm::origin(),
        }
    }
}

/// Every stored compound child is well formed.
pub open spec fn parts_well_formed(parts: [CompoundPart; MAX_COMPOUND_PARTS]) -> bool {
    forall|i: int| 0 <= i < MAX_COMPOUND_PARTS ==> #[trigger] parts@[i].shape.spec_well_formed()
}

/// `vs` followed by the origin up to the fixed convex storage size.
pub open spec fn padded_vertices(vs: Seq<IVec3>) -> Seq<IVec3> {
    Seq::new(
        MAX_CONVEX_VERTICES as nat,
        |i: int|
            if i < vs.len() {
                vs[i]
            } else {
                IVec3 { x: 0, y: 0, z: 0 }
            },
    )
}

/// `ps` followed by default parts up to the fixed compound storage size.
pub open spec fn padded_parts(ps: Seq<CompoundPart>) -> Seq<CompoundPart> {
    Seq::new(
        MAX_COMPOUND_PARTS as nat,
        |i: int|
            if i < ps.len() {
                ps[i]
            } else {
                CompoundPart::spec_default()
            },
    )
}

impl Shape {
    /// Oriented boxes, also inside compounds, are non-empty: the clamps of
    /// the narrow phase need `min <= max`.
    pub open spec fn spec_well_formed(self) -> bool {
        match self {
            Shape::OrientedBox { local } => !local.spec_is_empty(),
            Shape::Compound { parts, .. } => parts_well_formed(parts),
            _ => true,
        }
    }

    /// Oriented box from a non-empty local AABB.
    pub fn oriented_box(local: AabbMm) -> (r: Result<Shape, GeomError>)
        ensures
            local.spec_is_empty() ==> r == Err::<Shape, GeomError>(GeomError::Malformed),
            !local.spec_is_empty() ==> r == Ok::<Shape, GeomError>(Shape::OrientedBox { local }),
    {
        if local.is_empty() {
            return Err(GeomError::Malformed);
        }
        Ok(Shape::OrientedBox { local })
    }

    /// Sphere with a non-negative radius.
    pub fn sphere(local_center: IVec3, radius_mm: i32) -> (r: Result<Shape, GeomError>)
        ensures
            radius_mm < 0 ==> r == Err::<Shape, GeomError>(GeomError::Malformed),
            radius_mm >= 0 ==> r == Ok::<Shape, GeomError>(Shape::Sphere { local_center, radius_mm }),
    {
        if radius_mm < 0 {
            return Err(GeomError::Malformed);
        }
        Ok(Shape::Sphere { local_center, radius_mm })
    }

    /// Y-axis capsule with non-negative radius and half-height.
    pub fn capsule(local_center: IVec3, radius_mm: i32, half_height_mm: i32) -> (r: Result<
        Shape,
        GeomError,
    >)
        ensures
            (radius_mm < 0 || half_height_mm < 0) ==> r == Err::<Shape, GeomError>(
                GeomError::Malformed,
            ),
            (radius_mm >= 0 && half_height_mm >= 0) ==> r == Ok::<Shape, GeomError>(
                Shape::Capsule { local_center, radius_mm, half_height_mm },
            ),
    {
        if radius_mm < 0 || half_height_mm < 0 {
            return Err(GeomError::Malformed);
        }
        Ok(Shape::Capsule { local_center, radius_mm, half_height_mm })
    }

    /// Bounded convex hull from 4 to 16 canonically ordered vertices.
    pub fn convex(vertices: &[IVec3]) -> (r: Result<Shape, GeomError>)
        ensures
            !(4 <= vertices@.len() <= MAX_CONVEX_VERTICES) ==> r == Err::<Shape, GeomError>(
                GeomError::Malformed,
            ),
            (4 <= vertices@.len() <= MAX_CONVEX_VERTICES) ==> (r matches Ok(
                Shape::Convex { vertices: v, len },
            ) && len == vertices@.len() && v@ == padded_vertices(vertices@)),
    {
        let n = vertices.len();
        if n < 4 || n > MAX_CONVEX_VERTICES {
            return Err(GeomError::Malformed);
        }
        let mut fixed = [IVec3::zero();16];
        let mut i: usize = 0;
        while i < n
            invariant
                n == vertices@.len(),
                4 <= n <= 16,
                0 <= i <= n,
                fixed@.len() == 16,
                forall|j: int| 0 <= j < i ==> fixed@[j] == vertices@[j],
                forall|j: int| i <= j < 16 ==> fixed@[j] == IVec3::spec_zero(),
            decreases n - i,
        {
            fixed[i] = vertices[i];
            i = i + 1;
        }
        assert(fixed@ =~= padded_vertices(vertices@));
        Ok(Shape::Convex { vertices: fixed, len: n as u8 })
    }

    /// Bounded compound from 1 to 8 canonically ordered, locally posed children.
    pub fn compound(parts: &[CompoundPart]) -> (r: Result<Shape, GeomError>)
        ensures
            !(1 <= parts@.len() <= MAX_COMPOUND_PARTS) ==> r == Err::<Shape, GeomError>(
                GeomError::Malformed,
            ),
            (1 <= parts@.len() <= MAX_COMPOUND_PARTS) ==> (r matches Ok(
                Shape::Compound { parts: p, len },
            ) && len == parts@.len() && p@ == padded_parts(parts@)),
    {
        let n = parts.len();
        if n == 0 || n > MAX_COMPOUND_PARTS {
            return Err(GeomError::Malformed);
        }
        let d = CompoundPart::default();
        let mut fixed = [d;8];
        let mut i: usize = 0;
        while i < n
            invariant
                n == parts@.len(),
                1 <= n <= 8,
                0 <= i <= n,
                d == CompoundPart::spec_default(),
                fixed@.len() == 8,
                forall|j: int| 0 <= j < i ==> fixed@[j] == parts@[j],
                forall|j: int| i <= j < 8 ==> fixed@[j] == d,
            decreases n - i,
        {
            fixed[i] = parts[i];
            i = i + 1;
        }
        assert(fixed@ =~= padded_parts(parts@));
        Ok(Shape::Compound { parts: fixed, len: n as u8 })
    }
}

/// Floor midpoint of two coordinates.
pub open spec fn spec_mid(a: i32, b: i32) -> i32 {
    ((a + b) / 2) as i32
}

/// Floor half-extent of `a..=b`.
pub open spec fn spec_half(a: i32, b: i32) -> i32 {
    ((b - a) / 2) as i32
}

fn mid(a: i32, b: i32) -> (r: i32)
    ensures
        r == spec_mid(a, b),
{
    let s = (a as i64) + (b as i64);
    match s.checked_div_euclid(2) {
        Some(q) => q as i32,
        None => 0,
    }
}

fn half(a: i32, b: i32) -> (r: i32)
    requires
        a <= b,
    ensures
        r == spec_half(a, b),
        0 <= r,
{
    let s = (b as i64) - (a as i64);
    match s.checked_div_euclid(2) {
        Some(q) => q as i32,
        None => 0,
    }
}

/// The eight corners of a box, `x` slowest and `z` fastest.
pub open spec fn box_corner_seq(local: AabbMm) -> Seq<IVec3> {
    seq![
        IVec3 { x: local.min.x, y: local.min.y, z: local.min.z },
        IVec3 { x: local.min.x, y: local.min.y, z: local.max.z },
        IVec3 { x: local.min.x, y: local.max.y, z: local.min.z },
        IVec3 { x: local.min.x, y: local.max.y, z: local.max.z },
        IVec3 { x: local.max.x, y: local.min.y, z: local.min.z },
        IVec3 { x: local.max.x, y: local.min.y, z: local.max.z },
        IVec3 { x: local.max.x, y: local.max.y, z: local.min.z },
        IVec3 { x: local.max.x, y: local.max.y, z: local.max.z },
    ]
}

fn box_vertices(local: AabbMm) -> (r: [IVec3; 8])
    ensures
        r@ == box_corner_seq(local),
{
    let r = [
        IVec3 { x: local.min.x, y: local.min.y, z: local.min.z },
        IVec3 { x: local.min.x, y: local.min.y, z: local.max.z },
        IVec3 { x: local.min.x, y: local.max.y, z: local.min.z },
        IVec3 { x: local.min.x, y: local.max.y, z: local.max.z },
        IVec3 { x: local.max.x, y: local.min.y, z: local.min.z },
        IVec3 { x: local.max.x, y: local.min.y, z: local.max.z },
        IVec3 { x: local.max.x, y: local.max.y, z: local.min.z },
        IVec3 { x: local.max.x, y: local.max.y, z: local.max.z },
    ];
    assert(r@ =~= box_corner_seq(local));
    r
}

/// Centre of a box, rounded toward minus infinity.
pub open spec fn box_centre(local: AabbMm) -> IVec3 {
    IVec3 {
        x: spec_mid(local.min.x, local.max.x),
        y: spec_mid(local.min.y, local.max.y),
        z: spec_mid(local.min.z, local.max.z),
    }
}

/// Largest of the three half-extents: the radius of a cooked sphere.
pub open spec fn sphere_radius(local: AabbMm) -> i32 {
    let hx = spec_half(local.min.x, local.max.x);
    let hy = spec_half(local.min.y, local.max.y);
    let hz = spec_half(local.min.z, local.max.z);
    let m = if hx > hy { hx } else { hy };
    if m > hz {
        m
    } else {
        hz
    }
}

/// Smaller of the X and Z half-extents: the radius of a cooked capsule.
pub open spec fn capsule_radius(local: AabbMm) -> i32 {
    let hx = spec_half(local.min.x, local.max.x);
    let hz = spec_half(local.min.z, local.max.z);
    if hx < hz {
        hx
    } else {
        hz
    }
}

/// Remaining Y half-extent above the capsule radius, never negative.
pub open spec fn capsule_half_height(local: AabbMm) -> i32 {
    let hy = spec_half(local.min.y, local.max.y);
    let d = hy - capsule_radius(local);
    if d > 0 {
        d as i32
    } else {
        0
    }
}

/// What cooking a hull AABB as `kind` yields.
pub open spec fn cooked_as(kind: ShapeKind, local: AabbMm, r: Result<Shape, GeomError>) -> bool {
    if local.spec_is_empty() {
        r == Err::<Shape, GeomError>(GeomError::Malformed)
    } else {
        match kind {
            ShapeKind::OrientedBox => r == Ok::<Shape, GeomError>(Shape::OrientedBox { local }),
            ShapeKind::Sphere => r == Ok::<Shape, GeomError>(
                Shape::Sphere { local_center: box_centre(local), radius_mm: sphere_radius(local) },
            ),
            ShapeKind::Capsule => r == Ok::<Shape, GeomError>(
                Shape::Capsule {
                    local_center: box_centre(local),
                    radius_mm: capsule_radius(local),
                    half_height_mm: capsule_half_height(local),
                },
            ),
            ShapeKind::Convex => r matches Ok(Shape::Convex { vertices, len }) && len == 8
                && vertices@ == padded_vertices(box_corner_seq(local)),
            ShapeKind::Compound => r matches Ok(Shape::Compound { parts, len }) && len == 1
                && parts@ == padded_parts(
                seq![
                    CompoundPart {
                        shape: PrimitiveShape::OrientedBox { local },
                        local_pose: CompoundPart::spec_default().local_pose,
                    },
                ],
            ),
            _ => r == Err::<Shape, GeomError>(GeomError::Unsupported),
        }
    }
}

/// Interpret a cooked hull AABB as a primitive of `kind`. Static occupancy
/// kinds are not supported and fail closed.
pub fn cooked_shape(kind: ShapeKind, local: AabbMm) -> (r: Result<Shape, GeomError>)
    ensures
        cooked_as(kind, local, r),
{
    if local.is_empty() {
        return Err(GeomError::Malformed);
    }
    let centre = IVec3 {
        x: mid(local.min.x, local.max.x),
        y: mid(local.min.y, local.max.y),
        z: mid(local.min.z, local.max.z),
    };
    let hx = half(local.min.x, local.max.x);
    let hy = half(local.min.y, local.max.y);
    let hz = half(local.min.z, local.max.z);
    match kind {
        ShapeKind::OrientedBox => Shape::oriented_box(local),
        ShapeKind::Sphere => {
            let m = if hx > hy {
                hx
            } else {
                hy
            };
            let radius = if m > hz {
                m
            } else {
                hz
            };
            Shape::sphere(centre, radius)
        },
        ShapeKind::Capsule => {
            let radius = if hx < hz {
                hx
            } else {
                hz
            };
            let d = hy - radius;
            let half_height = if d > 0 {
                d
            } else {
                0
            };
            Shape::capsule(centre, radius, half_height)
        },
        ShapeKind::Convex => {
            let corners = box_vertices(local);
            Shape::convex(&corners)
        },
        ShapeKind::Compound => {
            let part = CompoundPart {
                shape: PrimitiveShape::OrientedBox { local },
                local_pose: PoseMm::origin(),
            };
            let parts = [part];
            let r = Shape::compound(&parts);
            assert(parts@ =~= seq![part]);
            r
        },
        _ => Err(GeomError::Unsupported),
    }
}

} // verus!
