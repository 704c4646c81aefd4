//! Contact-track artifacts and the certification of a visual clip against
//! the canon track: retargeted sockets and capsule endpoints stay within the
//! error envelope, and nothing else may change.
use vstd::prelude::*;
use vstd::string::StringSliceAdditionalSpecFns;

use crate::bytes::append_bytes;
use crate::contact::{ContactSocket, ContactSweep, ContactTrack, FootPlant, CONTACT_ERROR_MM};
use crate::failure::{text, CompileError};
use crate::hash::{blake3_digest, hash_bytes};
use crate::header::{prefix_bytes, write_prefix};
use crate::space::IVec3;

verus! {

/// Maximum encoded contact-track size; checked before parsing untrusted bytes.
pub const MAX_CONTACT_TRACK_BYTES: usize = 131_072;

/// The one error every refused track or clip gets.
pub open spec fn invalid_track(e: CompileError) -> bool {
    e matches CompileError::Header(m) && m@ == "invalid semantic contact track"@
}

fn invalid() -> (e: CompileError)
    ensures
        invalid_track(e),
{
    CompileError::Header(text("invalid semantic contact track"))
}

/// Artifact bytes of a contact track: the prefix of `kind`, then the track's
/// canonical text.
pub open spec fn track_bytes(kind: u8, canonical: Seq<char>) -> Seq<u8> {
    prefix_bytes(kind) + vstd::utf8::encode_utf8(canonical)
}

/// The track can be encoded: it is valid and its bytes fit the cap.
pub open spec fn track_encodes(track: ContactTrack, kind: u8, canonical: Seq<char>) -> bool {
    track.spec_is_valid() && track_bytes(kind, canonical).len() <= MAX_CONTACT_TRACK_BYTES
}

/// Encode a contact track of artifact kind `kind` whose canonical text is
/// `canonical`. An invalid track, or one whose bytes exceed the cap, is refused.
/// The canonical text is the track's RON serialization, made by the caller:
/// a serde derive cannot stand on a verified type, and the artifact kind
/// codes belong to the provenance crate, which is not part of this build.
/// Nothing here checks that `canonical` is that serialization.
pub fn encode_contact_track(track: &ContactTrack, kind: u8, canonical: &str) -> (r: Result<Vec<u8>, CompileError>)
    ensures
        match r {
            Ok(b) => track_encodes(*track, kind, canonical@) && b@ == track_bytes(kind, canonical@),
            Err(e) => !track_encodes(*track, kind, canonical@) && invalid_track(e),
        },
{
    if !track.is_valid() {
        return Err(invalid());
    }
    let mut bytes: Vec<u8> = Vec::new();
    write_prefix(&mut bytes, kind);
    append_bytes(&mut bytes, canonical.as_bytes());
    if bytes.len() > MAX_CONTACT_TRACK_BYTES {
        return Err(invalid());
    }
    Ok(bytes)
}

/// Compatibility signature: the digest of the encoded track. It binds all
/// semantic geometry, identities and rite timing, through `canonical`,
/// which the caller derives from the track (see [`encode_contact_track`]).
pub fn contact_signature(track: &ContactTrack, kind: u8, canonical: &str) -> (r: Result<
    crate::hash::Hash,
    CompileError,
>)
    ensures
        match r {
            Ok(h) => track_encodes(*track, kind, canonical@) && h.0@ == blake3_digest(track_bytes(kind, canonical@)),
            Err(e) => !track_encodes(*track, kind, canonical@) && invalid_track(e),
        },
{
    match encode_contact_track(track, kind, canonical) {
        Ok(b) => Ok(hash_bytes(b.as_slice())),
        Err(e) => Err(e),
    }
}

/// Two points within the error envelope (squared distance at most its square).
pub open spec fn near(a: IVec3, b: IVec3) -> bool {
    let dx = a.x - b.x;
    let dy = a.y - b.y;
    let dz = a.z - b.z;
    dx * dx + dy * dy + dz * dz <= CONTACT_ERROR_MM * CONTACT_ERROR_MM
}

/// The shorter of two lengths.
pub open spec fn shorter(a: int, b: int) -> int {
    if a <= b {
        a
    } else {
        b
    }
}

/// Point-wise nearness of two sample lists over their common length.
pub open spec fn samples_near(a: Seq<IVec3>, b: Seq<IVec3>) -> bool {
    forall|k: int| 0 <= k < shorter(a.len() as int, b.len() as int) ==> near(#[trigger] a[k], b[k])
}

/// Capsule endpoints in order: both ends of each sample.
pub open spec fn flat(s: Seq<[IVec3; 2]>) -> Seq<IVec3> {
    Seq::new(2 * s.len(), |k: int| s[k / 2][k % 2])
}

/// Paired sockets share names and stay near.
pub open spec fn sockets_match(c: Seq<ContactSocket>, v: Seq<ContactSocket>) -> bool {
    forall|i: int|
        0 <= i < shorter(c.len() as int, v.len() as int) ==> (#[trigger] c[i]).name@ == v[i].name@ && samples_near(
            c[i].samples@,
            v[i].samples@,
        )
}

/// Paired sweeps share name, socket and radius and their endpoints stay near.
pub open spec fn sweeps_match(c: Seq<ContactSweep>, v: Seq<ContactSweep>) -> bool {
    forall|i: int|
        0 <= i < shorter(c.len() as int, v.len() as int) ==> (#[trigger] c[i]).name@ == v[i].name@ && c[i].socket@
            == v[i].socket@ && c[i].radius_mm == v[i].radius_mm && samples_near(flat(c[i].samples@), flat(v[i].samples@))
}

/// Plants equal field by field.
pub open spec fn plants_equal(a: Seq<FootPlant>, b: Seq<FootPlant>) -> bool {
    a.len() == b.len() && forall|i: int|
        0 <= i < a.len() ==> (#[trigger] a[i]).socket@ == b[i].socket@ && a[i].start == b[i].start && a[i].end
            == b[i].end
}

/// Everything but the sockets and sweeps is the same.
pub open spec fn rest_equal(c: ContactTrack, v: ContactTrack) -> bool {
    &&& c.skeleton.0@ == v.skeleton.0@
    &&& c.instrument.0@ == v.instrument.0@
    &&& c.action.0@ == v.action.0@
    &&& c.rite@ == v.rite@
    &&& c.tick_hz == v.tick_hz
    &&& c.wait_pc == v.wait_pc
    &&& c.channel == v.channel
    &&& c.wait_ticks == v.wait_ticks
    &&& c.roots@ == v.roots@
    &&& plants_equal(c.plants@, v.plants@)
}

/// The visual track is a faithful retarget of the canon track.
pub open spec fn retarget_ok(canon: ContactTrack, visual: ContactTrack) -> bool {
    &&& visual.spec_is_valid()
    &&& sockets_match(canon.sockets@, visual.sockets@)
    &&& sweeps_match(canon.sweeps@, visual.sweeps@)
    &&& canon.sockets@.len() == visual.sockets@.len()
    &&& canon.sweeps@.len() == visual.sweeps@.len()
    &&& rest_equal(canon, visual)
}

fn near_exec(a: IVec3, b: IVec3) -> (r: bool)
    requires
        crate::contact::point_ok(a),
        crate::contact::point_ok(b),
    ensures
        r == near(a, b),
{
    let dx = (a.x as i64) - (b.x as i64);
    let dy = (a.y as i64) - (b.y as i64);
    let dz = (a.z as i64) - (b.z as i64);
    assert(0 <= dx * dx <= 40_000_000_000 && 0 <= dy * dy <= 40_000_000_000 && 0 <= dz * dz <= 40_000_000_000) by (nonlinear_arith)
        requires
            -200_000 <= dx <= 200_000,
            -200_000 <= dy <= 200_000,
            -200_000 <= dz <= 200_000,
    ;
    assert(CONTACT_ERROR_MM == 5);
    assert(CONTACT_ERROR_MM * CONTACT_ERROR_MM == 25);
    dx * dx + dy * dy + dz * dz <= 25
}

fn all_near(a: &Vec<IVec3>, b: &Vec<IVec3>) -> (r: bool)
    requires
        crate::contact::points_ok(a@),
        crate::contact::points_ok(b@),
    ensures
        r == samples_near(a@, b@),
{
    let n = if a.len() <= b.len() {
        a.len()
    } else {
        b.len()
    };
    let mut k: usize = 0;
    while k < n
        invariant
            n == shorter(a@.len() as int, b@.len() as int),
            crate::contact::points_ok(a@),
            crate::contact::points_ok(b@),
            0 <= k <= n,
            forall|q: int| 0 <= q < k ==> near(#[trigger] a@[q], b@[q]),
        decreases n - k,
    {
        if !near_exec(a[k], b[k]) {
            return false;
        }
        k = k + 1;
    }
    true
}

fn flatten(s: &Vec<[IVec3; 2]>) -> (r: Vec<IVec3>)
    ensures
        r@ == flat(s@),
{
    let mut out: Vec<IVec3> = Vec::new();
    let mut i: usize = 0;
    while i < s.len()
        invariant
            0 <= i <= s@.len(),
            out@.len() == 2 * i,
            forall|k: int| 0 <= k < 2 * i ==> #[trigger] out@[k] == s@[k / 2][k % 2],
        decreases s@.len() - i,
    {
        let p = s[i];
        out.push(p[0]);
        out.push(p[1]);
        i = i + 1;
    }
    assert(out@ =~= flat(s@));
    out
}

fn same_hash(a: &crate::hash::Hash, b: &crate::hash::Hash) -> (r: bool)
    ensures
        r == (a.0@ == b.0@),
{
    let mut i: usize = 0;
    while i < 32
        invariant
            i <= 32,
            forall|j: int| 0 <= j < i ==> a.0@[j] == b.0@[j],
        decreases 32 - i,
    {
        if a.0[i] != b.0[i] {
            return false;
        }
        i = i + 1;
    }
    assert(a.0@ =~= b.0@);
    true
}

fn same_points(a: &Vec<IVec3>, b: &Vec<IVec3>) -> (r: bool)
    ensures
        r == (a@ == b@),
{
    if a.len() != b.len() {
        return false;
    }
    let mut i: usize = 0;
    while i < a.len()
        invariant
            a@.len() == b@.len(),
            0 <= i <= a@.len(),
            forall|j: int| 0 <= j < i ==> a@[j] == b@[j],
        decreases a@.len() - i,
    {
        if a[i] != b[i] {
            return false;
        }
        i = i + 1;
    }
    assert(a@ =~= b@);
    true
}

fn same_plants(a: &Vec<FootPlant>, b: &Vec<FootPlant>) -> (r: bool)
    ensures
        r == plants_equal(a@, b@),
{
    if a.len() != b.len() {
        return false;
    }
    let mut i: usize = 0;
    while i < a.len()
        invariant
            a@.len() == b@.len(),
            0 <= i <= a@.len(),
            forall|j: int|
                0 <= j < i ==> (#[trigger] a@[j]).socket@ == b@[j].socket@ && a@[j].start == b@[j].start && a@[j].end
                    == b@[j].end,
        decreases a@.len() - i,
    {
        if !crate::diag::str_eq(a[i].socket.as_str(), b[i].socket.as_str()) || a[i].start != b[i].start || a[i].end
            != b[i].end {
            return false;
        }
        i = i + 1;
    }
    true
}

/// Certify a visual clip's quantized semantic samples against the canon
/// track of artifact kind `kind` (canonical text `canonical`), whose
/// signature must be `expected`. Returns the signature. Root, timing, rig
/// and identity changes fail closed; retargeted sockets and capsule
/// endpoints must stay within the error envelope.
pub fn certify_contact_clip(
    canon: &ContactTrack,
    visual: &ContactTrack,
    expected: crate::hash::Hash,
    kind: u8,
    canonical: &str,
) -> (r: Result<crate::hash::Hash, CompileError>)
    ensures
        (r is Ok) == (track_encodes(*canon, kind, canonical@) && blake3_digest(track_bytes(kind, canonical@))
            == expected.0@ && retarget_ok(*canon, *visual)),
        r matches Ok(h) ==> h.0@ == blake3_digest(track_bytes(kind, canonical@)),
        r matches Err(e) ==> invalid_track(e),
{
    let signature = match contact_signature(canon, kind, canonical) {
        Ok(h) => h,
        Err(e) => {
            return Err(e);
        },
    };
    if !same_hash(&signature, &expected) || !visual.is_valid() {
        return Err(invalid());
    }
    let ns = if canon.sockets.len() <= visual.sockets.len() {
        canon.sockets.len()
    } else {
        visual.sockets.len()
    };
    let mut i: usize = 0;
    while i < ns
        invariant
            canon.spec_is_valid(),
            visual.spec_is_valid(),
            ns == shorter(canon.sockets@.len() as int, visual.sockets@.len() as int),
            0 <= i <= ns,
            forall|q: int|
                0 <= q < i ==> (#[trigger] canon.sockets@[q]).name@ == visual.sockets@[q].name@ && samples_near(
                    canon.sockets@[q].samples@,
                    visual.sockets@[q].samples@,
                ),
        decreases ns - i,
    {
        let a = &canon.sockets[i];
        let b = &visual.sockets[i];
        assert(crate::contact::socket_ok(canon.sockets@[i as int], canon.roots@.len() as int));
        assert(crate::contact::socket_ok(visual.sockets@[i as int], visual.roots@.len() as int));
        if !crate::diag::str_eq(a.name.as_str(), b.name.as_str()) || !all_near(&a.samples, &b.samples) {
            return Err(invalid());
        }
        i = i + 1;
    }
    let nw = if canon.sweeps.len() <= visual.sweeps.len() {
        canon.sweeps.len()
    } else {
        visual.sweeps.len()
    };
    let mut i: usize = 0;
    while i < nw
        invariant
            canon.spec_is_valid(),
            visual.spec_is_valid(),
            nw == shorter(canon.sweeps@.len() as int, visual.sweeps@.len() as int),
            0 <= i <= nw,
            forall|q: int|
                0 <= q < i ==> (#[trigger] canon.sweeps@[q]).name@ == visual.sweeps@[q].name@
                    && canon.sweeps@[q].socket@ == visual.sweeps@[q].socket@ && canon.sweeps@[q].radius_mm
                    == visual.sweeps@[q].radius_mm && samples_near(
                    flat(canon.sweeps@[q].samples@),
                    flat(visual.sweeps@[q].samples@),
                ),
        decreases nw - i,
    {
        let a = &canon.sweeps[i];
        let b = &visual.sweeps[i];
        let fa = flatten(&a.samples);
        let fb = flatten(&b.samples);
        proof {
            let sa = canon.sweeps@[i as int];
            let sb = visual.sweeps@[i as int];
            assert(crate::contact::sweep_ok(sa, canon.sockets@, canon.roots@.len() as int));
            assert(crate::contact::sweep_ok(sb, visual.sockets@, visual.roots@.len() as int));
            assert forall|k: int| 0 <= k < fa@.len() implies crate::contact::point_ok(#[trigger] fa@[k]) by {
                assert(crate::contact::pair_ok(sa.samples@[k / 2]));
            }
            assert forall|k: int| 0 <= k < fb@.len() implies crate::contact::point_ok(#[trigger] fb@[k]) by {
                assert(crate::contact::pair_ok(sb.samples@[k / 2]));
            }
        }
        if !crate::diag::str_eq(a.name.as_str(), b.name.as_str()) || !crate::diag::str_eq(
            a.socket.as_str(),
            b.socket.as_str(),
        ) || a.radius_mm != b.radius_mm || !all_near(&fa, &fb) {
            return Err(invalid());
        }
        i = i + 1;
    }
    if canon.sockets.len() != visual.sockets.len() || canon.sweeps.len() != visual.sweeps.len() {
        return Err(invalid());
    }
    let rest = same_hash(&canon.skeleton, &visual.skeleton) && same_hash(&canon.instrument, &visual.instrument)
        && same_hash(&canon.action, &visual.action) && crate::diag::str_eq(canon.rite.as_str(), visual.rite.as_str())
        && canon.tick_hz == visual.tick_hz && canon.wait_pc == visual.wait_pc && canon.channel == visual.channel
        && canon.wait_ticks == visual.wait_ticks && same_points(&canon.roots, &visual.roots) && same_plants(
        &canon.plants,
        &visual.plants,
    );
    if !rest {
        return Err(invalid());
    }
    Ok(signature)
}

} // verus!
