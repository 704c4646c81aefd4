//! Canon semantic trajectories, independent of presenter bone palettes.
use vstd::prelude::*;
use vstd::string::StringSliceAdditionalSpecFns;
use vstd::utf8::encode_utf8;
use crate::hash::zero_bytes;
use crate::space::IVec3;

verus! {

/// Maximum authoritative boundaries in one action (including its endpoint).
pub const MAX_CONTACT_SAMPLES: usize = 65;

/// Maximum named sockets and sweep channels per track.
pub const MAX_CONTACT_CHANNELS: usize = 8;

/// Frozen retarget error envelope, in millimetres.
pub const CONTACT_ERROR_MM: i32 = 5;

/// One named semantic socket at each authoritative boundary.
#[derive(Clone, PartialEq, Eq, Hash, Debug)]
pub struct ContactSocket {
    /// Stable semantic name, independent of bone index.
    pub name: String,
    /// Root-local millimetre positions.
    pub samples: Vec<IVec3>,
}

/// A capsule trajectory; consecutive samples define the sweep.
#[derive(Clone, PartialEq, Eq, Hash, Debug)]
pub struct ContactSweep {
    /// Stable channel name.
    pub name: String,
    /// Semantic socket carrying this volume.
    pub socket: String,
    /// Capsule radius in millimetres.
    pub radius_mm: i32,
    /// Root-local capsule endpoints at each boundary.
    pub samples: Vec<[IVec3; 2]>,
}

/// Optional half-open foot-plant interval.
#[derive(Clone, PartialEq, Eq, Hash, Debug)]
pub struct FootPlant {
    /// Named foot socket.
    pub socket: String,
    /// First planted tick.
    pub start: u16,
    /// First unplanted tick.
    pub end: u16,
}

/// Canon-bound semantic motion artifact. Visual clip bytes are deliberately absent.
#[derive(Clone, PartialEq, Eq, Hash, Debug)]
pub struct ContactTrack {
    /// Approved skeleton identity.
    pub skeleton: crate::hash::Hash,
    /// Approved instrument binding identity.
    pub instrument: crate::hash::Hash,
    /// Semantic action identity.
    pub action: crate::hash::Hash,
    /// Canon Rite name.
    pub rite: String,
    /// Authoritative sampling rate, 30 or 60 Hz.
    pub tick_hz: u16,
    /// Exact labeled WAIT instruction in the Canon Rite.
    pub wait_pc: u16,
    /// Frozen player Agency channel wire tag (1-4).
    pub channel: u8,
    /// Active WAIT duration in authoritative ticks.
    pub wait_ticks: u16,
    /// Root-local absolute trajectory at tick boundaries.
    pub roots: Vec<IVec3>,
    /// Strictly name-ordered sockets.
    pub sockets: Vec<ContactSocket>,
    /// Strictly name-ordered swept capsules.
    pub sweeps: Vec<ContactSweep>,
    /// Strictly ordered (socket, start) plant intervals.
    pub plants: Vec<FootPlant>,
}

/// Reproducible narrow-phase sample in a quantized semantic capsule interval.
#[derive(Copy, Clone, PartialEq, Eq, Structural, Debug)]
pub struct SweepSample {
    /// Temporal sample index.
    pub time: u16,
    /// Capsule centre-line sample index.
    pub segment: u16,
}

/// UTF-8 bytes of a string's characters.
pub open spec fn utf8(s: Seq<char>) -> Seq<u8> {
    encode_utf8(s)
}

/// ASCII letter, digit, `_` or `.`.
pub open spec fn name_byte(b: u8) -> bool {
    (48 <= b <= 57) || (65 <= b <= 90) || (97 <= b <= 122) || b == 95 || b == 46
}

/// A channel or rite name: 1..=64 bytes of letters, digits, `_` and `.`.
pub open spec fn name_ok(s: Seq<char>) -> bool {
    let b = utf8(s);
    &&& 0 < b.len() <= 64
    &&& forall|i: int| 0 <= i < b.len() ==> name_byte(#[trigger] b[i])
}

/// Strict lexicographic byte order (the order of Rust strings).
pub open spec fn lex_lt(a: Seq<u8>, b: Seq<u8>) -> bool
    decreases a.len(),
{
    if a.len() == 0 {
        b.len() > 0
    } else if b.len() == 0 {
        false
    } else if a[0] < b[0] {
        true
    } else if a[0] > b[0] {
        false
    } else {
        lex_lt(a.drop_first(), b.drop_first())
    }
}

/// Each coordinate within 100 m.
pub open spec fn point_ok(p: IVec3) -> bool {
    -100_000 <= p.x <= 100_000 && -100_000 <= p.y <= 100_000 && -100_000 <= p.z <= 100_000
}

/// Both capsule endpoints are within bounds.
pub open spec fn pair_ok(p: [IVec3; 2]) -> bool {
    point_ok(p[0]) && point_ok(p[1])
}

/// Every point of a sequence is within bounds.
pub open spec fn points_ok(ps: Seq<IVec3>) -> bool {
    forall|i: int| 0 <= i < ps.len() ==> point_ok(#[trigger] ps[i])
}

/// Some socket carries this name.
pub open spec fn has_socket(sockets: Seq<ContactSocket>, name: Seq<char>) -> bool {
    exists|i: int| 0 <= i < sockets.len() && (#[trigger] sockets[i]).name@ == name
}

/// Socket bounds for a track of `n` boundaries.
pub open spec fn socket_ok(s: ContactSocket, n: int) -> bool {
    name_ok(s.name@) && s.samples@.len() == n && points_ok(s.samples@)
}

/// Sweep bounds for a track of `n` boundaries.
pub open spec fn sweep_ok(s: ContactSweep, sockets: Seq<ContactSocket>, n: int) -> bool {
    &&& name_ok(s.name@)
    &&& has_socket(sockets, s.socket@)
    &&& 1 <= s.radius_mm <= 2000
    &&& s.samples@.len() == n
    &&& forall|i: int| 0 <= i < n ==> pair_ok(#[trigger] s.samples@[i])
}

/// Plant bounds for a track whose WAIT lasts `wait` ticks.
pub open spec fn plant_ok(p: FootPlant, sockets: Seq<ContactSocket>, wait: u16) -> bool {
    p.start < p.end && p.end <= wait && has_socket(sockets, p.socket@)
}

/// Consecutive plants are ordered by `(socket, start)` and do not overlap on one socket.
pub open spec fn plants_ordered(a: FootPlant, b: FootPlant) -> bool {
    &&& lex_lt(utf8(a.socket@), utf8(b.socket@)) || (a.socket@ == b.socket@ && a.start < b.start)
    &&& (a.socket@ != b.socket@ || a.end <= b.start)
}

impl ContactTrack {
    /// All bounds of a track that cook or preview may use.
    pub open spec fn spec_is_valid(self) -> bool {
        let n = self.roots@.len();
        let so = self.sockets@;
        let sw = self.sweeps@;
        let pl = self.plants@;
        &&& self.skeleton.0@ != zero_bytes()
        &&& self.instrument.0@ != zero_bytes()
        &&& self.action.0@ != zero_bytes()
        &&& name_ok(self.rite@)
        &&& (self.tick_hz == 30 || self.tick_hz == 60)
        &&& 1 <= self.channel <= 4
        &&& self.wait_ticks > 0
        &&& n == self.wait_ticks + 1
        &&& n <= MAX_CONTACT_SAMPLES
        &&& points_ok(self.roots@)
        &&& 0 < so.len() <= MAX_CONTACT_CHANNELS
        &&& 0 < sw.len() <= MAX_CONTACT_CHANNELS
        &&& forall|i: int| 0 <= i < so.len() - 1 ==> lex_lt(utf8((#[trigger] so[i]).name@), utf8(so[i + 1].name@))
        &&& forall|i: int| 0 <= i < sw.len() - 1 ==> lex_lt(utf8((#[trigger] sw[i]).name@), utf8(sw[i + 1].name@))
        &&& forall|i: int| 0 <= i < so.len() ==> socket_ok(#[trigger] so[i], n as int)
        &&& forall|i: int| 0 <= i < sw.len() ==> sweep_ok(#[trigger] sw[i], so, n as int)
        &&& pl.len() <= 16
        &&& forall|i: int| 0 <= i < pl.len() ==> plant_ok(#[trigger] pl[i], so, self.wait_ticks)
        &&& forall|i: int| 0 <= i < pl.len() - 1 ==> plants_ordered(#[trigger] pl[i], pl[i + 1])
    }

    /// Validate all bounds before cook or preview.
    pub fn is_valid(&self) -> (r: bool)
        ensures
            r == self.spec_is_valid(),
    {
        let n = self.roots.len();
        if self.skeleton.is_zero() || self.instrument.is_zero() || self.action.is_zero() {
            return false;
        }
        if !name_is_ok(&self.rite) {
            return false;
        }
        if !(self.tick_hz == 30 || self.tick_hz == 60) || !(1 <= self.channel && self.channel <= 4)
            || self.wait_ticks == 0 {
            return false;
        }
        if n != self.wait_ticks as usize + 1 || n > MAX_CONTACT_SAMPLES {
            return false;
        }
        if !all_points_ok(&self.roots) {
            return false;
        }
        let ns = self.sockets.len();
        let nw = self.sweeps.len();
        if ns == 0 || ns > MAX_CONTACT_CHANNELS || nw == 0 || nw > MAX_CONTACT_CHANNELS {
            return false;
        }
        let mut i: usize = 0;
        while i + 1 < ns
            invariant
                ns == self.sockets@.len(),
                i <= ns,
                ns <= 8,
                forall|k: int| 0 <= k < i && k < ns - 1 ==> lex_lt(utf8((#[trigger] self.sockets@[k]).name@), utf8(self.sockets@[k + 1].name@)),
            decreases ns - i,
        {
            if !string_lt(&self.sockets[i].name, &self.sockets[i + 1].name) {
                return false;
            }
            i += 1;
        }
        let mut i: usize = 0;
        while i + 1 < nw
            invariant
                nw == self.sweeps@.len(),
                i <= nw,
                nw <= 8,
                forall|k: int| 0 <= k < i && k < nw - 1 ==> lex_lt(utf8((#[trigger] self.sweeps@[k]).name@), utf8(self.sweeps@[k + 1].name@)),
            decreases nw - i,
        {
            if !string_lt(&self.sweeps[i].name, &self.sweeps[i + 1].name) {
                return false;
            }
            i += 1;
        }
        let mut i: usize = 0;
        while i < ns
            invariant
                ns == self.sockets@.len(),
                n == self.roots@.len(),
                forall|k: int| 0 <= k < i ==> socket_ok(#[trigger] self.sockets@[k], n as int),
            decreases ns - i,
        {
            let s = &self.sockets[i];
            if !name_is_ok(&s.name) || s.samples.len() != n || !all_points_ok(&s.samples) {
                return false;
            }
            i += 1;
        }
        let mut i: usize = 0;
        while i < nw
            invariant
                nw == self.sweeps@.len(),
                n == self.roots@.len(),
                forall|k: int| 0 <= k < i ==> sweep_ok(#[trigger] self.sweeps@[k], self.sockets@, n as int),
            decreases nw - i,
        {
            let s = &self.sweeps[i];
            if !name_is_ok(&s.name) || !socket_named(&self.sockets, &s.socket) || !(1 <= s.radius_mm
                && s.radius_mm <= 2000) || s.samples.len() != n || !all_pairs_ok(&s.samples) {
                return false;
            }
            i += 1;
        }
        let np = self.plants.len();
        if np > 16 {
            return false;
        }
        let mut i: usize = 0;
        while i < np
            invariant
                np == self.plants@.len(),
                forall|k: int| 0 <= k < i ==> plant_ok(#[trigger] self.plants@[k], self.sockets@, self.wait_ticks),
            decreases np - i,
        {
            let p = &self.plants[i];
            if !(p.start < p.end && p.end <= self.wait_ticks) || !socket_named(&self.sockets, &p.socket) {
                return false;
            }
            i += 1;
        }
        let mut i: usize = 0;
        while i + 1 < np
            invariant
                np == self.plants@.len(),
                i <= np,
                np <= 16,
                forall|k: int| 0 <= k < i && k < np - 1 ==> plants_ordered(#[trigger] self.plants@[k], self.plants@[k + 1]),
            decreases np - i,
        {
            let a = &self.plants[i];
            let b = &self.plants[i + 1];
            let same = a.socket == b.socket;
            let ordered = string_lt(&a.socket, &b.socket) || (same && a.start < b.start);
            if !ordered || (same && a.end > b.start) {
                return false;
            }
            i += 1;
        }
        true
    }
}

fn name_is_ok(s: &String) -> (r: bool)
    ensures
        r == name_ok(s@),
{
    let b = s.as_str().as_bytes();
    let n = b.len();
    if n == 0 || n > 64 {
        return false;
    }
    let mut i: usize = 0;
    while i < n
        invariant
            n == b@.len(),
            b@ == utf8(s@),
            forall|k: int| 0 <= k < i ==> name_byte(#[trigger] b@[k]),
        decreases n - i,
    {
        let c = b[i];
        if !((48 <= c && c <= 57) || (65 <= c && c <= 90) || (97 <= c && c <= 122) || c == 95 || c
            == 46) {
            return false;
        }
        i += 1;
    }
    true
}

/// Strict lexicographic order of byte slices.
pub fn bytes_lt(a: &[u8], b: &[u8]) -> (r: bool)
    ensures
        r == lex_lt(a@, b@),
{
    let mut i: usize = 0;
    assert(a@.skip(0) =~= a@ && b@.skip(0) =~= b@);
    while i < a.len() && i < b.len()
        invariant
            i <= a@.len(),
            i <= b@.len(),
            lex_lt(a@, b@) == lex_lt(a@.skip(i as int), b@.skip(i as int)),
        decreases a.len() - i,
    {
        let ai = a[i];
        let bi = b[i];
        assert(a@.skip(i as int)[0] == ai && b@.skip(i as int)[0] == bi);
        if ai < bi {
            return true;
        }
        if ai > bi {
            return false;
        }
        assert(a@.skip(i as int).drop_first() =~= a@.skip(i + 1));
        assert(b@.skip(i as int).drop_first() =~= b@.skip(i + 1));
        i += 1;
    }
    i < b.len()
}

/// Strict lexicographic order of two strings' bytes.
pub fn string_lt(a: &String, b: &String) -> (r: bool)
    ensures
        r == lex_lt(utf8(a@), utf8(b@)),
{
    bytes_lt(a.as_str().as_bytes(), b.as_str().as_bytes())
}

fn all_points_ok(ps: &Vec<IVec3>) -> (r: bool)
    ensures
        r == points_ok(ps@),
{
    let mut i: usize = 0;
    while i < ps.len()
        invariant
            forall|k: int| 0 <= k < i ==> point_ok(#[trigger] ps@[k]),
        decreases ps.len() - i,
    {
        let p = ps[i];
        if !(-100_000 <= p.x && p.x <= 100_000 && -100_000 <= p.y && p.y <= 100_000 && -100_000
            <= p.z && p.z <= 100_000) {
            return false;
        }
        i += 1;
    }
    true
}

fn all_pairs_ok(ps: &Vec<[IVec3; 2]>) -> (r: bool)
    ensures
        r == (forall|i: int| 0 <= i < ps@.len() ==> pair_ok(#[trigger] ps@[i])),
{
    let mut i: usize = 0;
    while i < ps.len()
        invariant
            forall|k: int| 0 <= k < i ==> pair_ok(#[trigger] ps@[k]),
        decreases ps.len() - i,
    {
        let pair = ps[i];
        assert(pair == ps@[i as int]);
        let p = pair[0];
        let q = pair[1];
        assert(p == ps@[i as int][0] && q == ps@[i as int][1]);
        if !(-100_000 <= p.x && p.x <= 100_000 && -100_000 <= p.y && p.y <= 100_000 && -100_000
            <= p.z && p.z <= 100_000) {
            return false;
        }
        if !(-100_000 <= q.x && q.x <= 100_000 && -100_000 <= q.y && q.y <= 100_000 && -100_000
            <= q.z && q.z <= 100_000) {
            return false;
        }
        assert(pair_ok(ps@[i as int]));
        i += 1;
    }
    true
}

fn socket_named(sockets: &Vec<ContactSocket>, name: &String) -> (r: bool)
    ensures
        r == has_socket(sockets@, name@),
{
    let mut i: usize = 0;
    while i < sockets.len()
        invariant
            forall|k: int| 0 <= k < i ==> (#[trigger] sockets@[k]).name@ != name@,
        decreases sockets.len() - i,
    {
        if sockets[i].name == *name {
            return true;
        }
        i += 1;
    }
    false
}

} // verus!
