//! Scalar newtypes shared by every module: millimetres, millidegrees,
//! 16.16 velocities, ticks, epochs and packed locus ids.
use vstd::prelude::*;

verus! {

/// Millimetres.
#[derive(Copy, Clone, PartialEq, Eq, Structural, Hash, Debug, Default)]
pub struct Mm(pub i32);

/// Angle in millidegrees. Yaw 0 faces +Z.
#[derive(Copy, Clone, PartialEq, Eq, Structural, Hash, Debug, Default)]
pub struct YawMd(pub i32);

impl YawMd {
    /// No rotation.
    pub fn zero() -> (r: YawMd)
        ensures
            r.0 == 0,
    {
        YawMd(0)
    }
    /// Ninety degrees in millidegrees.
    pub const QUARTER_TURN: i32 = 90_000;
    /// One hundred eighty degrees in millidegrees.
    pub const HALF_TURN: i32 = 180_000;

    /// Wrapping sum of two angles (`i32` wraparound, as in the sources).
    pub fn wrapping_add(self, other: YawMd) -> (r: YawMd)
        ensures
            r.0 == self.0.wrapping_add(other.0),
    {
        YawMd(self.0.wrapping_add(other.0))
    }
}

/// 16.16 fixed-point millimetres per tick.
#[derive(Copy, Clone, PartialEq, Eq, Structural, Hash, Debug, Default)]
pub struct VelFx(pub i32);

impl VelFx {
    /// Unity in 16.16, as a raw value.
    pub const ONE_RAW: i32 = 65536;
    /// Fractional bits of the 16.16 format.
    pub const FRAC_BITS: u32 = 16;
}

/// Authoritative simulation tick.
#[derive(Copy, Clone, PartialEq, Eq, Structural, Hash, Debug, Default)]
pub struct Tick(pub u64);

/// Canon epoch observed by a witness.
#[derive(Copy, Clone, PartialEq, Eq, Structural, Hash, Debug, Default)]
pub struct Epoch(pub u64);

impl Epoch {
    /// Epoch zero.
    pub fn zero() -> (r: Epoch)
        ensures
            r.0 == 0,
    {
        Epoch(0)
    }
}

/// Packed locus identity. Zero is never a live locus.
#[derive(Copy, Clone, PartialEq, Eq, Structural, Hash, Debug, Default)]
pub struct Sigil(u128);

impl Sigil {
    /// Wrap a packed raw id.
    pub fn from_raw(raw: u128) -> (s: Sigil)
        ensures
            s.spec_raw() == raw,
    {
        Sigil(raw)
    }

    /// The packed raw id.
    pub fn raw(self) -> (r: u128)
        ensures
            r == self.spec_raw(),
    {
        self.0
    }

    /// Spec view of the packed raw id.
    pub closed spec fn spec_raw(self) -> u128 {
        self.0
    }
}

} // verus!
