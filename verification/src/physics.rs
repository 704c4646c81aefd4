//! Canon physical configuration: poses, shapes kinds, character and vehicle
//! rigs, constraints, and the collision witness a proposer attaches.
use vstd::prelude::*;
use crate::hash::BlobId;
use crate::space::IVec3;
use crate::units::{Epoch, Mm, Sigil, Tick, VelFx, YawMd};
use crate::yaw::{rotate_xz, spec_rotate_xz};

verus! {

/// Contact support from an admitted physical island: `(nx, ny, nz, depth_mm)`.
pub type Support = (i16, i16, i16, i32);

/// Per-collapse cap on authoritative physical fragments.
pub const MAX_COLLAPSE_FRAGMENTS: u8 = 64;

/// Global cap on live fragment-marked loci.
pub const MAX_FRAGMENTS_GLOBAL: u16 = 128;

/// Linear/angular request. Not a quantity row.
#[derive(Copy, Clone, PartialEq, Eq, Structural, Hash, Debug, Default)]
pub struct PhysRequest {
    /// One-shot linear delta-v, millimetres per tick.
    pub lin: IVec3,
    /// Angular request, millidegrees.
    pub ang: IVec3,
}

/// Integer 3-velocity in 16.16 millimetres per tick.
#[derive(Copy, Clone, PartialEq, Eq, Structural, Hash, Debug, Default)]
pub struct Vel3 {
    /// X, 16.16 mm / tick.
    pub x: VelFx,
    /// Y (height), 16.16 mm / tick.
    pub y: VelFx,
    /// Z, 16.16 mm / tick.
    pub z: VelFx,
}

impl Vel3 {
    /// Construct from axis components.
    pub fn new(x: VelFx, y: VelFx, z: VelFx) -> (r: Vel3)
        ensures
            r == (Vel3 { x, y, z }),
    {
        Vel3 { x, y, z }
    }
}

/// Committed pose. Ground plane is XZ; Y is height. Angles are millidegrees.
#[derive(Copy, Clone, PartialEq, Eq, Structural, Hash, Debug, Default)]
pub struct PoseMm {
    /// X, millimetres.
    pub x: Mm,
    /// Y (height), millimetres.
    pub y: Mm,
    /// Z, millimetres.
    pub z: Mm,
    /// Yaw about Y, millidegrees.
    pub yaw: YawMd,
    /// Pitch about X, millidegrees.
    pub pitch: YawMd,
    /// Roll about Z, millidegrees.
    pub roll: YawMd,
}

impl PoseMm {
    /// Translation of the pose origin (spec).
    pub open spec fn spec_translation(self) -> IVec3 {
        IVec3 { x: self.x.0, y: self.y.0, z: self.z.0 }
    }

    /// Construct from millimetre translation and yaw. Pitch and roll are zero.
    pub fn new(x: Mm, y: Mm, z: Mm, yaw: YawMd) -> (r: PoseMm)
        ensures
            r == (PoseMm { x, y, z, yaw, pitch: YawMd(0), roll: YawMd(0) }),
    {
        PoseMm { x, y, z, yaw, pitch: YawMd(0), roll: YawMd(0) }
    }

    /// Identity pose at the origin.
    pub fn origin() -> (r: PoseMm)
        ensures
            r == (PoseMm { x: Mm(0), y: Mm(0), z: Mm(0), yaw: YawMd(0), pitch: YawMd(0), roll: YawMd(0) }),
    {
        PoseMm { x: Mm(0), y: Mm(0), z: Mm(0), yaw: YawMd(0), pitch: YawMd(0), roll: YawMd(0) }
    }

    /// Integer millimetre translation of the origin of this pose.
    pub fn translation(self) -> (r: IVec3)
        ensures
            r == self.spec_translation(),
    {
        IVec3 { x: self.x.0, y: self.y.0, z: self.z.0 }
    }
}

/// Cooked collision primitive kind.
#[derive(Copy, Clone, PartialEq, Eq, Structural, Hash, Debug, Default)]
pub enum ShapeKind {
    /// Local AABB transformed by the locus pose.
    #[default]
    OrientedBox,
    /// Sphere about the local AABB centre.
    Sphere,
    /// Y-axis capsule transformed by the locus pose.
    Capsule,
    /// Convex hull.
    Convex,
    /// Compound of the dynamic kinds.
    Compound,
    /// Static triangle mesh occupancy.
    TriangleMesh,
    /// Static heightfield occupancy.
    Heightfield,
}

impl ShapeKind {
    /// Wire code of the kind.
    pub open spec fn spec_code(self) -> u8 {
        match self {
            ShapeKind::OrientedBox => 0,
            ShapeKind::Sphere => 1,
            ShapeKind::Capsule => 2,
            ShapeKind::Convex => 3,
            ShapeKind::Compound => 4,
            ShapeKind::TriangleMesh => 5,
            ShapeKind::Heightfield => 6,
        }
    }

    /// Box, sphere or capsule.
    pub open spec fn spec_is_oriented_primitive(self) -> bool {
        self is OrientedBox || self is Sphere || self is Capsule
    }

    /// Legal on an authoritative dynamic body.
    pub open spec fn spec_is_dynamic(self) -> bool {
        self.spec_is_oriented_primitive() || self is Convex || self is Compound
    }

    /// Static occupancy that never joins a dynamic island.
    pub open spec fn spec_is_static_occupancy(self) -> bool {
        self is TriangleMesh || self is Heightfield
    }

    /// True for the dynamic primitives the kernel can reproduce.
    pub fn is_oriented_primitive(self) -> (r: bool)
        ensures
            r == self.spec_is_oriented_primitive(),
    {
        match self {
            ShapeKind::OrientedBox | ShapeKind::Sphere | ShapeKind::Capsule => true,
            _ => false,
        }
    }

    /// True for a shape kind legal on an authoritative dynamic body.
    pub fn is_dynamic(self) -> (r: bool)
        ensures
            r == self.spec_is_dynamic(),
    {
        match self {
            ShapeKind::OrientedBox | ShapeKind::Sphere | ShapeKind::Capsule | ShapeKind::Convex
            | ShapeKind::Compound => true,
            _ => false,
        }
    }

    /// True for static occupancy that must never join a dynamic island.
    pub fn is_static_occupancy(self) -> (r: bool)
        ensures
            r == self.spec_is_static_occupancy(),
    {
        match self {
            ShapeKind::TriangleMesh | ShapeKind::Heightfield => true,
            _ => false,
        }
    }
}

/// Every kind is exactly one of dynamic or static occupancy.
pub proof fn lemma_shape_kind_partition(k: ShapeKind)
    ensures
        k.spec_is_dynamic() != k.spec_is_static_occupancy(),
{
}

/// Canonical rigid-body mode.
#[derive(Copy, Clone, PartialEq, Eq, Structural, Hash, Debug, Default)]
pub enum BodyMode {
    /// Integrated and contact-resolved.
    #[default]
    Dynamic,
    /// Canon trajectory drives pose.
    Kinematic,
    /// Immutable occupancy.
    Static,
}

/// Bounded Canon locomotion trajectory and capsule traversal policy.
#[derive(Copy, Clone, PartialEq, Eq, Hash, Debug)]
pub struct CharacterPhysics {
    /// Looping semantic root samples; unused entries must be zero.
    pub roots: [IVec3; 8],
    /// Number of live samples, 1..=8.
    pub root_count: u8,
    /// Maximum traversable riser in millimetres.
    pub step_mm: i32,
    /// Minimum upward contact normal, signed unit scaled by 32767.
    pub slope_min_y: i16,
}

/// A live character root sample: planar reach within a metre, each axis within a metre.
pub open spec fn root_sample_ok(r: IVec3) -> bool {
    &&& r.x * r.x + r.z * r.z <= 1_000_000
    &&& -1000 <= r.x <= 1000
    &&& -1000 <= r.y <= 1000
    &&& -1000 <= r.z <= 1000
}

impl CharacterPhysics {
    /// Policy accepted by the pure character query.
    pub open spec fn spec_is_valid(self) -> bool {
        &&& 1 <= self.root_count <= 8
        &&& 0 <= self.step_mm <= 500
        &&& self.slope_min_y > 0
        &&& forall|i: int| 0 <= i < self.root_count ==> root_sample_ok(#[trigger] self.roots[i])
        &&& forall|i: int| self.root_count <= i < 8 ==> #[trigger] self.roots[i] == IVec3::spec_zero()
    }

    /// Bounded policy accepted by the pure character query.
    pub fn is_valid(self) -> (r: bool)
        ensures
            r == self.spec_is_valid(),
    {
        if !(1 <= self.root_count && self.root_count <= 8) {
            return false;
        }
        if !(0 <= self.step_mm && self.step_mm <= 500) || self.slope_min_y <= 0 {
            return false;
        }
        let n = self.root_count as usize;
        let mut i: usize = 0;
        while i < 8
            invariant
                1 <= n <= 8,
                n == self.root_count,
                i <= 8,
                forall|j: int| 0 <= j < i && j < n ==> root_sample_ok(#[trigger] self.roots[j]),
                forall|j: int| n <= j < i ==> #[trigger] self.roots[j] == IVec3::spec_zero(),
            decreases 8 - i,
        {
            let r = self.roots[i];
            if i < n {
                let ok = -1000 <= r.x && r.x <= 1000 && -1000 <= r.y && r.y <= 1000 && -1000
                    <= r.z && r.z <= 1000;
                if !ok {
                    return false;
                }
                let x = r.x as i64;
                let z = r.z as i64;
                proof {
                    assert(0 <= x * x <= 1_000_000 && 0 <= z * z <= 1_000_000) by (nonlinear_arith)
                        requires
                            -1000 <= x <= 1000,
                            -1000 <= z <= 1000,
                    ;
                }
                if x * x + z * z > 1_000_000 {
                    return false;
                }
            } else if r != IVec3::zero() {
                return false;
            }
            i += 1;
        }
        true
    }

    /// Trajectory sample at `tick`: the live root at `tick % root_count`, rotated by `yaw`.
    pub open spec fn spec_sample(self, tick: Tick, moving: bool, yaw: YawMd) -> IVec3 {
        if !moving || !self.spec_is_valid() {
            IVec3::spec_zero()
        } else {
            spec_rotate_xz(self.roots[(tick.0 % self.root_count as u64) as int], yaw)
        }
    }

    /// Sample a Canon trajectory; no presenter clip or mutable time state.
    pub fn sample(self, tick: Tick, moving: bool, yaw: YawMd) -> (r: IVec3)
        ensures
            r == self.spec_sample(tick, moving, yaw),
    {
        if !moving || !self.is_valid() {
            return IVec3::zero();
        }
        let idx = (tick.0 % (self.root_count as u64)) as usize;
        rotate_xz(self.roots[idx], yaw)
    }
}

impl Default for CharacterPhysics {
    fn default() -> (r: CharacterPhysics)
        ensures
            r.root_count == 1,
            r.step_mm == 250,
            r.slope_min_y == 23170,
            r.roots[0] == (IVec3 { x: 0, y: 0, z: 20 }),
            forall|i: int| 1 <= i < 8 ==> #[trigger] r.roots[i] == IVec3::spec_zero(),
    {
        let z = IVec3::zero();
        CharacterPhysics {
            roots: [IVec3 { x: 0, y: 0, z: 20 }, z, z, z, z, z, z, z],
            root_count: 1,
            step_mm: 250,
            slope_min_y: 23170,
        }
    }
}

/// Pure desired displacement, consumed inside the character island solve.
#[derive(Copy, Clone, PartialEq, Eq, Structural, Debug)]
pub struct CharacterDrive {
    /// Character identity.
    pub actor: Sigil,
    /// Desired world-space root displacement in millimetres.
    pub root: IVec3,
}

/// Bounded Canon four-wheel ray-cast rig.
#[derive(Copy, Clone, PartialEq, Eq, Hash, Debug)]
pub struct VehiclePhysics {
    /// Local hub positions in millimetres. Unused entries must be zero.
    pub wheels: [IVec3; 4],
    /// Number of live wheels, 2..=4.
    pub wheel_count: u8,
    /// Unloaded ray length to the contact plane, millimetres.
    pub rest_mm: i32,
    /// Spring stiffness, permille of the mass-derived rest load.
    pub stiffness_permille: u16,
    /// Damper coefficient, permille of critical damping.
    pub damper_permille: u16,
    /// Wheel radius, millimetres.
    pub radius_mm: i32,
    /// Maximum front-wheel steer, millidegrees.
    pub steer_md: i32,
    /// Throttle magnitude, millimetres per tick.
    pub drive_mm: i32,
    /// Brake magnitude, millimetres per tick.
    pub brake_mm: i32,
    /// Longitudinal tire friction scale, permille.
    pub long_friction_permille: u16,
    /// Lateral tire friction scale, permille.
    pub lat_friction_permille: u16,
}

/// A live wheel hub within 5 m laterally, 2 m vertically, 5 m longitudinally.
pub open spec fn hub_ok(w: IVec3) -> bool {
    -5000 <= w.x <= 5000 && -2000 <= w.y <= 2000 && -5000 <= w.z <= 5000
}

impl VehiclePhysics {
    /// Rig accepted by the scalar vehicle solve.
    pub open spec fn spec_is_valid(self) -> bool {
        &&& 2 <= self.wheel_count <= 4
        &&& 50 <= self.rest_mm <= 2000
        &&& 20 <= self.radius_mm <= 1000
        &&& 1 <= self.stiffness_permille <= 2000
        &&& self.damper_permille <= 2000
        &&& 0 <= self.steer_md <= 45_000
        &&& 1 <= self.drive_mm <= 500
        &&& 0 <= self.brake_mm <= 500
        &&& self.long_friction_permille <= 2000
        &&& self.lat_friction_permille <= 2000
        &&& forall|i: int| 0 <= i < self.wheel_count ==> hub_ok(#[trigger] self.wheels[i])
        &&& forall|i: int| self.wheel_count <= i < 4 ==> #[trigger] self.wheels[i] == IVec3::spec_zero()
    }

    /// Bounded rig accepted by the scalar vehicle solve.
    pub fn is_valid(self) -> (r: bool)
        ensures
            r == self.spec_is_valid(),
    {
        if !(2 <= self.wheel_count && self.wheel_count <= 4 && 50 <= self.rest_mm && self.rest_mm
            <= 2000 && 20 <= self.radius_mm && self.radius_mm <= 1000 && 1
            <= self.stiffness_permille && self.stiffness_permille <= 2000 && self.damper_permille
            <= 2000 && 0 <= self.steer_md && self.steer_md <= 45_000 && 1 <= self.drive_mm
            && self.drive_mm <= 500 && 0 <= self.brake_mm && self.brake_mm <= 500
            && self.long_friction_permille <= 2000 && self.lat_friction_permille <= 2000) {
            return false;
        }
        let n = self.wheel_count as usize;
        let mut i: usize = 0;
        while i < 4
            invariant
                2 <= n <= 4,
                n == self.wheel_count,
                i <= 4,
                forall|j: int| 0 <= j < i && j < n ==> hub_ok(#[trigger] self.wheels[j]),
                forall|j: int| n <= j < i ==> #[trigger] self.wheels[j] == IVec3::spec_zero(),
            decreases 4 - i,
        {
            let w = self.wheels[i];
            if i < n {
                if !(-5000 <= w.x && w.x <= 5000 && -2000 <= w.y && w.y <= 2000 && -5000 <= w.z
                    && w.z <= 5000) {
                    return false;
                }
            } else if w != IVec3::zero() {
                return false;
            }
            i += 1;
        }
        true
    }
}

impl Default for VehiclePhysics {
    fn default() -> (r: VehiclePhysics)
        ensures
            r.spec_is_valid(),
            r.wheel_count == 4,
            r.rest_mm == 250,
            r.radius_mm == 200,
    {
        VehiclePhysics {
            wheels: [
                IVec3 { x: -300, y: 0, z: 500 },
                IVec3 { x: 300, y: 0, z: 500 },
                IVec3 { x: -300, y: 0, z: -500 },
                IVec3 { x: 300, y: 0, z: -500 },
            ],
            wheel_count: 4,
            rest_mm: 250,
            stiffness_permille: 1_000,
            damper_permille: 800,
            radius_mm: 200,
            steer_md: 25_000,
            drive_mm: 40,
            brake_mm: 40,
            long_friction_permille: 1_000,
            lat_friction_permille: 1_000,
        }
    }
}

/// Pure chassis controls reconstructed from Canon, Projection, and the request.
#[derive(Copy, Clone, PartialEq, Eq, Structural, Debug)]
pub struct VehicleDrive {
    /// Chassis identity.
    pub chassis: Sigil,
    /// Forward command, millimetres per tick, signed.
    pub throttle: i32,
    /// Brake command, millimetres per tick, not negative.
    pub brake: i32,
    /// Front-wheel steer, millidegrees, signed.
    pub steer_md: i32,
}

impl Default for VehicleDrive {
    fn default() -> (r: VehicleDrive)
        ensures
            r.chassis.spec_raw() == 0,
            r.throttle == 0,
            r.brake == 0,
            r.steer_md == 0,
    {
        VehicleDrive { chassis: Sigil::from_raw(0), throttle: 0, brake: 0, steer_md: 0 }
    }
}

/// Canon-bound material and mass properties.
#[derive(Copy, Clone, PartialEq, Eq, Hash, Debug)]
pub struct BodyPhysics {
    /// Body mode.
    pub mode: BodyMode,
    /// Canonical cooked collision kind for the bound hull blob.
    pub shape: ShapeKind,
    /// Explicit driven-character binding.
    pub character: Option<CharacterPhysics>,
    /// Explicit four-wheel rig.
    pub vehicle: Option<VehiclePhysics>,
    /// Mass in grams. Zero requests deterministic volume-derived mass.
    pub mass_grams: u32,
    /// Local centre of mass, millimetres.
    pub center_of_mass: IVec3,
    /// Diagonal inertia in gram-square-millimetres. Zero entries are derived.
    pub inertia_diag: [u64; 3],
    /// Coulomb coefficient, permille.
    pub friction_permille: u16,
    /// Normal restitution, permille.
    pub restitution_permille: u16,
}

impl BodyPhysics {
    /// Values accepted by the scalar solver.
    pub open spec fn spec_is_valid(self) -> bool {
        &&& self.friction_permille <= 2000
        &&& self.restitution_permille <= 1000
        &&& !(self.character is Some && self.vehicle is Some)
        &&& (self.character matches Some(c) ==> c.spec_is_valid() && self.shape is Capsule
            && self.mode is Dynamic)
        &&& (self.vehicle matches Some(v) ==> v.spec_is_valid() && self.shape.spec_is_dynamic()
            && self.mode is Dynamic)
    }

    /// Values accepted by the scalar solver. Invalid Canon fails closed.
    pub fn is_valid(self) -> (r: bool)
        ensures
            r == self.spec_is_valid(),
    {
        if self.friction_permille > 2000 || self.restitution_permille > 1000 {
            return false;
        }
        if self.character.is_some() && self.vehicle.is_some() {
            return false;
        }
        match self.character {
            Some(c) => {
                if !(c.is_valid() && self.shape == ShapeKind::Capsule && self.mode
                    == BodyMode::Dynamic) {
                    return false;
                }
            },
            None => {},
        }
        match self.vehicle {
            Some(v) => {
                if !(v.is_valid() && self.shape.is_dynamic() && self.mode == BodyMode::Dynamic) {
                    return false;
                }
            },
            None => {},
        }
        true
    }
}

impl Default for BodyPhysics {
    fn default() -> (r: BodyPhysics)
        ensures
            r.spec_is_valid(),
            r.mode is Dynamic,
            r.shape is OrientedBox,
            r.character is None,
            r.vehicle is None,
            r.mass_grams == 0,
            r.friction_permille == 900,
            r.restitution_permille == 0,
    {
        BodyPhysics {
            mode: BodyMode::Dynamic,
            shape: ShapeKind::OrientedBox,
            character: None,
            vehicle: None,
            mass_grams: 0,
            center_of_mass: IVec3::zero(),
            inertia_diag: [0u64; 3],
            friction_permille: 900,
            restitution_permille: 0,
        }
    }
}

/// Canonical joint kind.
#[derive(Copy, Clone, PartialEq, Eq, Structural, Hash, Debug, Default)]
pub enum ConstraintKind {
    /// Coincident anchors.
    #[default]
    Fixed,
    /// Rotation only about `axis`.
    Hinge,
    /// Translation only along `axis`.
    Slider,
    /// Hooke spring along the separation of the anchors.
    Spring,
}

/// Canon-bound physical constraint.
#[derive(Copy, Clone, PartialEq, Eq, Hash, Debug)]
pub struct ConstraintPhysics {
    /// Joint kind.
    pub kind: ConstraintKind,
    /// First body.
    pub a: Sigil,
    /// Second body, or a static occupancy locus.
    pub b: Sigil,
    /// Local anchor on `a`, millimetres.
    pub anchor_a: IVec3,
    /// Local anchor on `b`, millimetres.
    pub anchor_b: IVec3,
    /// Hinge/slider axis in `a`'s local frame.
    pub axis: IVec3,
    /// Spring rest length, millimetres.
    pub rest_mm: i32,
    /// Spring stiffness, permille.
    pub stiffness_permille: u16,
    /// Hinge angular envelope, millidegrees. Zero is unlimited.
    pub limit_md: i32,
    /// Impulse that produces a break. Zero is unbreakable.
    pub break_impulse: i32,
    /// Authoritative physical fragments to spawn on an admitted break.
    pub fragments: u8,
    /// Canonical binding observed by the proposer and kernel.
    pub binding: BlobId,
}

impl ConstraintPhysics {
    /// Values the kernel will admit.
    pub open spec fn spec_is_valid(self) -> bool {
        &&& self.a.spec_raw() != 0
        &&& self.b.spec_raw() != 0
        &&& self.a.spec_raw() != self.b.spec_raw()
        &&& self.stiffness_permille <= 2000
        &&& self.limit_md >= 0
        &&& self.break_impulse >= 0
        &&& self.fragments <= MAX_COLLAPSE_FRAGMENTS
    }

    /// Values the kernel will admit. Invalid Canon fails closed.
    pub fn is_valid(self) -> (r: bool)
        ensures
            r == self.spec_is_valid(),
    {
        self.a.raw() != 0 && self.b.raw() != 0 && self.a.raw() != self.b.raw()
            && self.stiffness_permille <= 2000 && self.limit_md >= 0 && self.break_impulse >= 0
            && self.fragments <= MAX_COLLAPSE_FRAGMENTS
    }
}

impl Default for ConstraintPhysics {
    fn default() -> (r: ConstraintPhysics)
        ensures
            r.kind is Fixed,
            r.a.spec_raw() == 0,
            r.b.spec_raw() == 0,
            r.axis == (IVec3 { x: 0, y: 1, z: 0 }),
            r.stiffness_permille == 1000,
            r.fragments == 0,
            r.rest_mm == 0 && r.limit_md == 0 && r.break_impulse == 0,
    {
        ConstraintPhysics {
            kind: ConstraintKind::Fixed,
            a: Sigil::from_raw(0),
            b: Sigil::from_raw(0),
            anchor_a: IVec3::zero(),
            anchor_b: IVec3::zero(),
            axis: IVec3 { x: 0, y: 1, z: 0 },
            rest_mm: 0,
            stiffness_permille: 1_000,
            limit_md: 0,
            break_impulse: 0,
            fragments: 0,
            binding: BlobId::zero(),
        }
    }
}

/// Admitted constraint row.
#[derive(Copy, Clone, PartialEq, Eq, Structural, Hash, Debug, Default)]
pub struct ConstraintState {
    /// Last admitted impulse magnitude.
    pub impulse: i32,
    /// True after an admitted break.
    pub broken: bool,
}

/// Bounded quantized contact evidence. Not a solver manifold.
#[derive(Copy, Clone, PartialEq, Eq, Hash, Debug, Default)]
pub struct QuantizedContact {
    /// Contact point, millimetres.
    pub point: IVec3,
    /// Unit-ish normal, 32767 scale, pointing from `b` toward `a`.
    pub normal: (i16, i16, i16),
    /// Penetration along `normal`, millimetres. Zero is touching.
    pub depth_mm: i32,
    /// Deterministic feature id.
    pub feature: u16,
}

/// Collision witness a proposer attaches to a motion delta.
#[derive(Copy, Clone, PartialEq, Eq, Hash, Debug)]
pub struct HullWitness {
    /// Locus whose hull is being moved.
    pub mover: Sigil,
    /// Where the proposer wants to go.
    pub proposed: PoseMm,
    /// Proposer hint only.
    pub overlaps_closed_opaque: bool,
    /// Canon epoch observed with this witness.
    pub epoch: Epoch,
    /// Claimed cooked primitive.
    pub shape: ShapeKind,
    /// Optional quantized contact.
    pub evidence: Option<QuantizedContact>,
}

impl HullWitness {
    /// Construct a witness. Epoch is zero, shape is an oriented box, and evidence is absent.
    pub fn new(mover: Sigil, proposed: PoseMm, overlaps_closed_opaque: bool) -> (r: HullWitness)
        ensures
            r == (HullWitness {
                mover,
                proposed,
                overlaps_closed_opaque,
                epoch: Epoch(0),
                shape: ShapeKind::OrientedBox,
                evidence: None,
            }),
    {
        HullWitness {
            mover,
            proposed,
            overlaps_closed_opaque,
            epoch: Epoch::zero(),
            shape: ShapeKind::OrientedBox,
            evidence: None,
        }
    }
}

} // verus!
