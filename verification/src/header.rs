//! `KLTH` artifact headers: validation and decoding of cooked blobs before upload.
//!
//! Every blob starts with an eight-byte prefix: the magic `KLTH`, the header
//! version, the artifact kind code, and two pad bytes. Kind codes are assigned
//! by the artifact registry; functions here take the expected code.
use vstd::prelude::*;
use crate::bytes::{
    i16_pattern, le16, le32, lemma_append_prefix, lemma_le16_appended, lemma_le32_appended,
    lemma_readings_extend, lemma_signed16_pattern, lemma_signed32_pattern, i32_pattern, pattern32, pattern16, push_u16, push_u32, read_i16,
    read_i32, read_u16, read_u32, signed16, signed32, u16_bytes, u32_bytes,
};
use crate::failure::{cap_message, header_error, CompileError};
use crate::space::{AabbMm, IVec3};

verus! {

/// Header version. Bump invalidates every blob id.
pub const VERSION: u8 = 1;

/// Index count / 3 is at most this.
pub const MAX_TRIS: u32 = 200_000;

/// Rite `cap_steps` is at most this.
pub const MAX_RITE_STEPS: u16 = 64;

/// PCM sample rate for v1 grains.
pub const GRAIN_HZ: u32 = 48_000;

/// Bytes of the fixed prefix: magic + version + kind + pad.
pub const PREFIX: usize = 8;

/// Bone cap on a skinned mesh blob / palette.
pub const MAX_SKIN_BONES: u32 = 256;

/// Vertex cap: `MAX_TRIS * 3`.
pub const MAX_SKIN_VERTS: u32 = 600_000;

/// Quantized 4-influence weights must sum to this.
pub const SKIN_WEIGHT_SUM: u32 = 65_535;

/// v1 cap: clips in one clip set.
pub const MAX_CLIPS: u16 = 64;

/// v1 cap: samples per clip.
pub const MAX_CLIP_SAMPLES: u16 = 256;

/// Maximum probe cells in a baked volume (8 x 4 x 8).
pub const MAX_PROBE_CELLS: u32 = 256;

/// The four magic bytes, ASCII `KLTH`.
pub open spec fn spec_magic() -> Seq<u8> {
    seq![75u8, 76u8, 84u8, 72u8]
}

/// The four magic bytes, ASCII `KLTH`.
pub fn magic() -> (r: [u8; 4])
    ensures
        r@ == spec_magic(),
{
    let r = [75u8, 76u8, 84u8, 72u8];
    assert(r@ =~= spec_magic());
    r
}

/// The eight prefix bytes of a blob of kind `kind`.
pub open spec fn prefix_bytes(kind: u8) -> Seq<u8> {
    spec_magic() + seq![VERSION, kind, 0u8, 0u8]
}

/// Magic and version are present.
pub open spec fn prefix_valid(b: Seq<u8>) -> bool {
    b.len() >= 8 && b.take(4) == spec_magic() && b[4] == VERSION
}

/// Magic, version, and the expected kind are present.
pub open spec fn has_kind(b: Seq<u8>, kind: u8) -> bool {
    prefix_valid(b) && b[5] == kind
}

/// Append the eight-byte prefix.
pub fn write_prefix(buf: &mut Vec<u8>, kind: u8)
    ensures
        final(buf)@ == old(buf)@ + prefix_bytes(kind),
{
    buf.push(75);
    buf.push(76);
    buf.push(84);
    buf.push(72);
    buf.push(VERSION);
    buf.push(kind);
    buf.push(0);
    buf.push(0);
    assert(final(buf)@ =~= old(buf)@ + prefix_bytes(kind));
}

/// Kind code from a `KLTH` prefix. Does not validate the payload.
pub fn peek_kind(bytes: &[u8]) -> (r: Result<u8, CompileError>)
    ensures
        match r {
            Ok(k) => prefix_valid(bytes@) && k == bytes@[5],
            Err(e) => !prefix_valid(bytes@) && e is Header,
        },
{
    if bytes.len() < PREFIX {
        return Err(header_error("truncated prefix"));
    }
    if !(bytes[0] == 75 && bytes[1] == 76 && bytes[2] == 84 && bytes[3] == 72) {
        proof {
            if bytes@.take(4) == spec_magic() {
                assert(bytes@.take(4)[0] == 75 && bytes@.take(4)[1] == 76);
                assert(bytes@.take(4)[2] == 84 && bytes@.take(4)[3] == 72);
            }
        }
        return Err(header_error("bad magic"));
    }
    assert(bytes@.take(4) =~= spec_magic());
    if bytes[4] != VERSION {
        return Err(header_error("bad version"));
    }
    Ok(bytes[5])
}

fn peek(bytes: &[u8], kind: u8) -> (r: Result<(), CompileError>)
    ensures
        match r {
            Ok(()) => has_kind(bytes@, kind),
            Err(e) => !has_kind(bytes@, kind) && e is Header,
        },
{
    let k = peek_kind(bytes)?;
    if k != kind {
        return Err(header_error("wrong kind"));
    }
    Ok(())
}

/// Parsed clustered-mesh header.
#[derive(Copy, Clone, PartialEq, Eq, Structural, Debug)]
pub struct MeshInfo {
    /// Vertex count.
    pub verts: u32,
    /// Index count (a multiple of 3).
    pub indices: u32,
}

impl MeshInfo {
    /// Triangle count.
    pub fn tris(self) -> (r: u32)
        ensures
            r == self.indices / 3,
    {
        self.indices / 3
    }
}

/// Quantized clustered mesh after header validation.
#[derive(Clone, PartialEq, Eq, Debug)]
pub struct DecodedMesh {
    /// Counts.
    pub info: MeshInfo,
    /// `i16` millimetre verts.
    pub verts: Vec<[i16; 3]>,
    /// Triangle indices.
    pub indices: Vec<u32>,
}

/// Vertex count of a mesh blob.
pub open spec fn mesh_nv(b: Seq<u8>) -> int {
    le32(b, 8)
}

/// Index count of a mesh blob.
pub open spec fn mesh_ni(b: Seq<u8>) -> int {
    le32(b, 12)
}

/// Counts, caps and exact payload size of a mesh blob.
pub open spec fn mesh_sized(b: Seq<u8>) -> bool {
    &&& b.len() >= 16
    &&& mesh_ni(b) % 3 == 0
    &&& mesh_ni(b) / 3 <= MAX_TRIS
    &&& b.len() == 16 + 6 * mesh_nv(b) + 4 * mesh_ni(b)
}

/// Index `i` of a mesh blob.
pub open spec fn mesh_index(b: Seq<u8>, i: int) -> int {
    le32(b, 16 + 6 * mesh_nv(b) + 4 * i)
}

/// A well-formed clustered mesh blob of kind `kind`.
pub open spec fn mesh_ok(b: Seq<u8>, kind: u8) -> bool {
    &&& has_kind(b, kind)
    &&& mesh_sized(b)
    &&& forall|i: int| 0 <= i < mesh_ni(b) ==> #[trigger] mesh_index(b, i) < mesh_nv(b)
}

/// Validate a clustered-mesh blob. Caps: `MAX_TRIS`, quantized `i16` verts.
pub fn validate_mesh(bytes: &[u8], kind: u8) -> (r: Result<MeshInfo, CompileError>)
    ensures
        match r {
            Ok(info) => mesh_ok(bytes@, kind) && info.verts == mesh_nv(bytes@) && info.indices
                == mesh_ni(bytes@),
            Err(e) => !mesh_ok(bytes@, kind) && e is Header,
        },
{
    peek(bytes, kind)?;
    if bytes.len() < 16 {
        return Err(header_error("truncated u32"));
    }
    let verts = read_u32(bytes, 8);
    let indices = read_u32(bytes, 12);
    if indices % 3 != 0 {
        return Err(header_error("index count not multiple of 3"));
    }
    let tris = indices / 3;
    if tris > MAX_TRIS {
        return Err(CompileError::Header(cap_message("tris", tris as u64, MAX_TRIS as u64)));
    }
    let need: u64 = 16 + 6 * (verts as u64) + 4 * (indices as u64);
    if bytes.len() as u64 != need {
        return Err(header_error("payload size mismatch"));
    }
    let idx_off = 16 + 6 * (verts as usize);
    let n = indices as usize;
    let mut i: usize = 0;
    while i < n
        invariant
            bytes@.len() <= usize::MAX,
            has_kind(bytes@, kind),
            mesh_sized(bytes@),
            verts == mesh_nv(bytes@),
            n == mesh_ni(bytes@),
            idx_off == 16 + 6 * mesh_nv(bytes@),
            i <= n,
            forall|j: int| 0 <= j < i ==> #[trigger] mesh_index(bytes@, j) < mesh_nv(bytes@),
        decreases n - i,
    {
        let ix = read_u32(bytes, idx_off + i * 4);
        if ix >= verts {
            assert(mesh_index(bytes@, i as int) >= mesh_nv(bytes@));
            return Err(header_error("index out of range"));
        }
        i += 1;
    }
    Ok(MeshInfo { verts, indices })
}

/// Vertex `i`, axis `k` of a clustered mesh blob.
pub open spec fn mesh_vert(b: Seq<u8>, i: int, k: int) -> int {
    signed16(le16(b, 16 + 6 * i + 2 * k))
}

/// Validate then copy verts/indices. Call this before GPU upload.
pub fn decode_mesh(bytes: &[u8], kind: u8) -> (r: Result<DecodedMesh, CompileError>)
    ensures
        match r {
            Ok(d) => {
                &&& mesh_ok(bytes@, kind)
                &&& d.info.verts == mesh_nv(bytes@)
                &&& d.info.indices == mesh_ni(bytes@)
                &&& d.verts@.len() == mesh_nv(bytes@)
                &&& d.indices@.len() == mesh_ni(bytes@)
                &&& forall|i: int, k: int| 0 <= i < mesh_nv(bytes@) && 0 <= k < 3 ==> #[trigger] d.verts@[i][k] == mesh_vert(bytes@, i, k)
                &&& forall|i: int| 0 <= i < mesh_ni(bytes@) ==> #[trigger] d.indices@[i] == mesh_index(bytes@, i)
            },
            Err(e) => !mesh_ok(bytes@, kind) && e is Header,
        },
{
    let info = validate_mesh(bytes, kind)?;
    let nv = info.verts as usize;
    let blen = bytes.len();
    let ni = info.indices as usize;
    let mut verts: Vec<[i16; 3]> = Vec::new();
    let mut i: usize = 0;
    while i < nv
        invariant
            bytes@.len() <= usize::MAX,
            mesh_sized(bytes@),
            nv == mesh_nv(bytes@),
            i <= nv,
            verts@.len() == i,
            forall|j: int, k: int| 0 <= j < i && 0 <= k < 3 ==> #[trigger] verts@[j][k] == mesh_vert(bytes@, j, k),
        decreases nv - i,
    {
        let o = 16 + 6 * i;
        let v = [read_i16(bytes, o), read_i16(bytes, o + 2), read_i16(bytes, o + 4)];
        verts.push(v);
        i += 1;
    }
    let mut indices: Vec<u32> = Vec::new();
    let base = 16 + 6 * nv;
    let mut i: usize = 0;
    while i < ni
        invariant
            bytes@.len() <= usize::MAX,
            mesh_sized(bytes@),
            nv == mesh_nv(bytes@),
            ni == mesh_ni(bytes@),
            base == 16 + 6 * nv,
            i <= ni,
            indices@.len() == i,
            forall|j: int| 0 <= j < i ==> #[trigger] indices@[j] == mesh_index(bytes@, j),
        decreases ni - i,
    {
        indices.push(read_u32(bytes, base + 4 * i));
        i += 1;
    }
    Ok(DecodedMesh { info, verts, indices })
}

/// Hull payload: six `i32` extents, min then max.
pub open spec fn hull_ok(b: Seq<u8>, kind: u8) -> bool {
    has_kind(b, kind) && b.len() == 32
}

/// Validate a hull blob. Six `i32` millimetre extents.
pub fn validate_hull(bytes: &[u8], kind: u8) -> (r: Result<AabbMm, CompileError>)
    ensures
        match r {
            Ok(a) => hull_ok(bytes@, kind) && a.min.x == signed32(le32(bytes@, 8)) && a.min.y
                == signed32(le32(bytes@, 12)) && a.min.z == signed32(le32(bytes@, 16)) && a.max.x
                == signed32(le32(bytes@, 20)) && a.max.y == signed32(le32(bytes@, 24)) && a.max.z
                == signed32(le32(bytes@, 28)),
            Err(e) => !hull_ok(bytes@, kind) && e is Header,
        },
{
    peek(bytes, kind)?;
    if bytes.len() != 32 {
        return Err(header_error("hull payload must be 24 bytes"));
    }
    Ok(
        AabbMm::new(
            IVec3 { x: read_i32(bytes, 8), y: read_i32(bytes, 12), z: read_i32(bytes, 16) },
            IVec3 { x: read_i32(bytes, 20), y: read_i32(bytes, 24), z: read_i32(bytes, 28) },
        ),
    )
}

/// Parsed grain header.
#[derive(Copy, Clone, PartialEq, Eq, Structural, Debug)]
pub struct GrainInfo {
    /// Sample rate.
    pub hz: u32,
    /// Channel count (v1: 1).
    pub channels: u8,
    /// Frame count.
    pub frames: u32,
}

/// Mono PCM after header validation.
#[derive(Clone, PartialEq, Eq, Debug)]
pub struct DecodedGrain {
    /// Counts and rate.
    pub info: GrainInfo,
    /// Mono `i16` LE PCM at [`GRAIN_HZ`].
    pub pcm: Vec<i16>,
}

/// A well-formed grain: 48 kHz mono `i16` PCM with an exact frame count.
pub open spec fn grain_ok(b: Seq<u8>, kind: u8) -> bool {
    &&& has_kind(b, kind)
    &&& b.len() >= 20
    &&& le32(b, 8) == GRAIN_HZ
    &&& b[12] == 1
    &&& b.len() == 20 + 2 * le32(b, 16)
}

/// Validate a grain blob. PCM is `i16` LE mono at [`GRAIN_HZ`].
pub fn validate_grain(bytes: &[u8], kind: u8) -> (r: Result<GrainInfo, CompileError>)
    ensures
        match r {
            Ok(g) => grain_ok(bytes@, kind) && g.hz == GRAIN_HZ && g.channels == 1 && g.frames
                == le32(bytes@, 16),
            Err(e) => !grain_ok(bytes@, kind) && e is Header,
        },
{
    peek(bytes, kind)?;
    if bytes.len() < 20 {
        return Err(header_error("truncated grain header"));
    }
    let hz = read_u32(bytes, 8);
    let channels = bytes[12];
    let frames = read_u32(bytes, 16);
    if hz != GRAIN_HZ {
        return Err(header_error("grain hz"));
    }
    if channels != 1 {
        return Err(header_error("grain channels"));
    }
    if bytes.len() as u64 != 20 + 2 * (frames as u64) {
        return Err(header_error("grain payload size"));
    }
    Ok(GrainInfo { hz, channels, frames })
}

/// Validate then copy PCM. Call this before mix.
pub fn decode_grain(bytes: &[u8], kind: u8) -> (r: Result<DecodedGrain, CompileError>)
    ensures
        match r {
            Ok(d) => {
                &&& grain_ok(bytes@, kind)
                &&& d.info.hz == GRAIN_HZ && d.info.channels == 1
                &&& d.info.frames == le32(bytes@, 16)
                &&& d.pcm@.len() == le32(bytes@, 16)
                &&& forall|i: int| 0 <= i < d.pcm@.len() ==> #[trigger] d.pcm@[i] == signed16(le16(bytes@, 20 + 2 * i))
            },
            Err(e) => !grain_ok(bytes@, kind) && e is Header,
        },
{
    let info = validate_grain(bytes, kind)?;
    let n = info.frames as usize;
    let blen = bytes.len();
    let mut pcm: Vec<i16> = Vec::new();
    let mut i: usize = 0;
    while i < n
        invariant
            bytes@.len() <= usize::MAX,
            grain_ok(bytes@, kind),
            n == le32(bytes@, 16),
            i <= n,
            pcm@.len() == i,
            forall|j: int| 0 <= j < i ==> #[trigger] pcm@[j] == signed16(le16(bytes@, 20 + 2 * j)),
        decreases n - i,
    {
        pcm.push(read_i16(bytes, 20 + 2 * i));
        i += 1;
    }
    Ok(DecodedGrain { info, pcm })
}

/// A rite chunk whose `cap_steps` is within `1..=MAX_RITE_STEPS`.
pub open spec fn rite_ok(b: Seq<u8>, kind: u8) -> bool {
    has_kind(b, kind) && b.len() >= 16 && 1 <= le16(b, 10) <= MAX_RITE_STEPS
}

/// Validate a rite-chunk blob (header only).
pub fn validate_rite(bytes: &[u8], kind: u8) -> (r: Result<(), CompileError>)
    ensures
        match r {
            Ok(()) => rite_ok(bytes@, kind),
            Err(e) => !rite_ok(bytes@, kind) && e is Header,
        },
{
    peek(bytes, kind)?;
    if bytes.len() < 16 {
        return Err(header_error("truncated rite chunk"));
    }
    let cap_steps = read_u16(bytes, 10);
    if cap_steps == 0 {
        return Err(header_error("cap_steps 0"));
    }
    if cap_steps > MAX_RITE_STEPS {
        return Err(
            CompileError::Header(cap_message("cap_steps", cap_steps as u64, MAX_RITE_STEPS as u64)),
        );
    }
    Ok(())
}

/// Parsed skinned-mesh header.
#[derive(Copy, Clone, PartialEq, Eq, Structural, Debug)]
pub struct SkinnedMeshInfo {
    /// Vertex count.
    pub verts: u32,
    /// Index count (a multiple of 3).
    pub indices: u32,
    /// Bone count. 0 = identity / rigid fallback.
    pub bones: u32,
}

/// Quantized skinned mesh after header validation.
#[derive(Clone, PartialEq, Eq, Debug)]
pub struct DecodedSkinnedMesh {
    /// Counts.
    pub info: SkinnedMeshInfo,
    /// `i16` millimetre verts.
    pub verts: Vec<[i16; 3]>,
    /// Four joint indices per vert.
    pub joints: Vec<[u8; 4]>,
    /// Four `u16` weights per vert. Each vertex sums to [`SKIN_WEIGHT_SUM`].
    pub weights: Vec<[u16; 4]>,
    /// Triangle indices.
    pub indices: Vec<u32>,
}

/// Vertex count of a skinned blob.
pub open spec fn skin_nv(b: Seq<u8>) -> int {
    le32(b, 8)
}

/// Index count of a skinned blob.
pub open spec fn skin_ni(b: Seq<u8>) -> int {
    le32(b, 12)
}

/// Bone count of a skinned blob.
pub open spec fn skin_bones(b: Seq<u8>) -> int {
    le32(b, 16)
}

/// Counts, caps and exact payload size of a skinned blob.
pub open spec fn skin_sized(b: Seq<u8>) -> bool {
    &&& b.len() >= 20
    &&& skin_ni(b) % 3 == 0
    &&& skin_ni(b) / 3 <= MAX_TRIS
    &&& skin_bones(b) <= MAX_SKIN_BONES
    &&& skin_nv(b) <= MAX_SKIN_VERTS
    &&& b.len() == 20 + 18 * skin_nv(b) + 4 * skin_ni(b)
}

/// Axis `k` of vertex `i`.
pub open spec fn skin_vert(b: Seq<u8>, i: int, k: int) -> int {
    signed16(le16(b, 20 + 6 * i + 2 * k))
}

/// Joint `k` of vertex `i`.
pub open spec fn skin_joint(b: Seq<u8>, i: int, k: int) -> u8 {
    b[20 + 6 * skin_nv(b) + 4 * i + k]
}

/// Weight `k` of vertex `i`.
pub open spec fn skin_weight(b: Seq<u8>, i: int, k: int) -> int {
    le16(b, 20 + 10 * skin_nv(b) + 8 * i + 2 * k)
}

/// Triangle index `i`.
pub open spec fn skin_index(b: Seq<u8>, i: int) -> int {
    le32(b, 20 + 18 * skin_nv(b) + 4 * i)
}

/// A joint index names a bone, or is zero on a boneless mesh.
pub open spec fn joint_ok(j: int, bones: int) -> bool {
    j < bones || (bones == 0 && j == 0)
}

/// A well-formed skinned mesh blob of kind `kind`.
pub open spec fn skinned_ok(b: Seq<u8>, kind: u8) -> bool {
    &&& has_kind(b, kind)
    &&& skin_sized(b)
    &&& forall|i: int, k: int| 0 <= i < skin_nv(b) && 0 <= k < 4 ==> joint_ok(#[trigger] skin_joint(b, i, k) as int, skin_bones(b))
    &&& forall|i: int| 0 <= i < skin_nv(b) ==> #[trigger] skin_weight(b, i, 0) + skin_weight(b, i, 1) + skin_weight(b, i, 2) + skin_weight(b, i, 3) == SKIN_WEIGHT_SUM
    &&& forall|i: int| 0 <= i < skin_ni(b) ==> #[trigger] skin_index(b, i) < skin_nv(b)
}

/// Validate a skinned-mesh blob. Caps: [`MAX_TRIS`], [`MAX_SKIN_BONES`].
pub fn validate_skinned_mesh(bytes: &[u8], kind: u8) -> (r: Result<SkinnedMeshInfo, CompileError>)
    ensures
        match r {
            Ok(info) => skinned_ok(bytes@, kind) && info.verts == skin_nv(bytes@) && info.indices
                == skin_ni(bytes@) && info.bones == skin_bones(bytes@),
            Err(e) => !skinned_ok(bytes@, kind) && e is Header,
        },
{
    match decode_skinned_mesh(bytes, kind) {
        Ok(d) => Ok(d.info),
        Err(e) => Err(e),
    }
}

/// Validate then copy verts/joints/weights/indices. Call before GPU upload.
pub fn decode_skinned_mesh(bytes: &[u8], kind: u8) -> (r: Result<DecodedSkinnedMesh, CompileError>)
    ensures
        match r {
            Ok(d) => {
                &&& skinned_ok(bytes@, kind)
                &&& d.info.verts == skin_nv(bytes@)
                &&& d.info.indices == skin_ni(bytes@)
                &&& d.info.bones == skin_bones(bytes@)
                &&& d.verts@.len() == skin_nv(bytes@)
                &&& d.joints@.len() == skin_nv(bytes@)
                &&& d.weights@.len() == skin_nv(bytes@)
                &&& d.indices@.len() == skin_ni(bytes@)
                &&& forall|i: int, k: int| 0 <= i < skin_nv(bytes@) && 0 <= k < 3 ==> #[trigger] d.verts@[i][k] == skin_vert(bytes@, i, k)
                &&& forall|i: int, k: int| 0 <= i < skin_nv(bytes@) && 0 <= k < 4 ==> #[trigger] d.joints@[i][k] == skin_joint(bytes@, i, k)
                &&& forall|i: int, k: int| 0 <= i < skin_nv(bytes@) && 0 <= k < 4 ==> #[trigger] d.weights@[i][k] == skin_weight(bytes@, i, k)
                &&& forall|i: int| 0 <= i < skin_ni(bytes@) ==> #[trigger] d.indices@[i] == skin_index(bytes@, i)
            },
            Err(e) => !skinned_ok(bytes@, kind) && e is Header,
        },
{
    peek(bytes, kind)?;
    if bytes.len() < 20 {
        return Err(header_error("truncated skinned header"));
    }
    let verts = read_u32(bytes, 8);
    let indices = read_u32(bytes, 12);
    let bones = read_u32(bytes, 16);
    if indices % 3 != 0 {
        return Err(header_error("index count not multiple of 3"));
    }
    let tris = indices / 3;
    if tris > MAX_TRIS {
        return Err(CompileError::Header(cap_message("tris", tris as u64, MAX_TRIS as u64)));
    }
    if bones > MAX_SKIN_BONES {
        return Err(CompileError::Header(cap_message("bones", bones as u64, MAX_SKIN_BONES as u64)));
    }
    if verts > MAX_SKIN_VERTS {
        return Err(CompileError::Header(cap_message("verts", verts as u64, MAX_SKIN_VERTS as u64)));
    }
    let nv = verts as usize;
    let ni = indices as usize;
    if bytes.len() as u64 != 20 + 18 * (verts as u64) + 4 * (indices as u64) {
        return Err(header_error("payload size mismatch"));
    }
    let blen = bytes.len();
    let mut out_verts: Vec<[i16; 3]> = Vec::new();
    let mut i: usize = 0;
    while i < nv
        invariant
            bytes@.len() <= usize::MAX,
            skin_sized(bytes@),
            nv == skin_nv(bytes@),
            i <= nv,
            out_verts@.len() == i,
            forall|j: int, k: int| 0 <= j < i && 0 <= k < 3 ==> #[trigger] out_verts@[j][k] == skin_vert(bytes@, j, k),
        decreases nv - i,
    {
        let o = 20 + 6 * i;
        out_verts.push([read_i16(bytes, o), read_i16(bytes, o + 2), read_i16(bytes, o + 4)]);
        i += 1;
    }
    let jbase = 20 + 6 * nv;
    let mut out_joints: Vec<[u8; 4]> = Vec::new();
    let mut i: usize = 0;
    while i < nv
        invariant
            bytes@.len() <= usize::MAX,
            skin_sized(bytes@),
            nv == skin_nv(bytes@),
            bones == skin_bones(bytes@),
            jbase == 20 + 6 * nv,
            i <= nv,
            out_joints@.len() == i,
            forall|j: int, k: int| 0 <= j < i && 0 <= k < 4 ==> #[trigger] out_joints@[j][k] == skin_joint(bytes@, j, k),
            forall|j: int, k: int| 0 <= j < i && 0 <= k < 4 ==> joint_ok(#[trigger] skin_joint(bytes@, j, k) as int, skin_bones(bytes@)),
        decreases nv - i,
    {
        let o = jbase + 4 * i;
        let j = [bytes[o], bytes[o + 1], bytes[o + 2], bytes[o + 3]];
        let mut k: usize = 0;
        while k < 4
            invariant
                bytes@.len() <= usize::MAX,
                skin_sized(bytes@),
                nv == skin_nv(bytes@),
                bones == skin_bones(bytes@),
                i < nv,
                o == 20 + 6 * nv + 4 * i,
                j@ == seq![bytes@[o as int], bytes@[o + 1], bytes@[o + 2], bytes@[o + 3]],
                k <= 4,
                forall|q: int| 0 <= q < k ==> joint_ok(#[trigger] skin_joint(bytes@, i as int, q) as int, skin_bones(bytes@)),
            decreases 4 - k,
        {
            let jb = j[k];
            assert(jb == skin_joint(bytes@, i as int, k as int));
            if (jb as u32) >= bones && !(bones == 0 && jb == 0) {
                return Err(header_error("bone index out of range"));
            }
            k += 1;
        }
        out_joints.push(j);
        i += 1;
    }
    let wbase = 20 + 10 * nv;
    let mut out_weights: Vec<[u16; 4]> = Vec::new();
    let mut i: usize = 0;
    while i < nv
        invariant
            bytes@.len() <= usize::MAX,
            skin_sized(bytes@),
            nv == skin_nv(bytes@),
            wbase == 20 + 10 * nv,
            i <= nv,
            out_weights@.len() == i,
            forall|j: int, k: int| 0 <= j < i && 0 <= k < 4 ==> #[trigger] out_weights@[j][k] == skin_weight(bytes@, j, k),
            forall|j: int| 0 <= j < i ==> #[trigger] skin_weight(bytes@, j, 0) + skin_weight(bytes@, j, 1) + skin_weight(bytes@, j, 2) + skin_weight(bytes@, j, 3) == SKIN_WEIGHT_SUM,
        decreases nv - i,
    {
        let o = wbase + 8 * i;
        let w = [read_u16(bytes, o), read_u16(bytes, o + 2), read_u16(bytes, o + 4), read_u16(bytes, o + 6)];
        let sum = (w[0] as u32) + (w[1] as u32) + (w[2] as u32) + (w[3] as u32);
        if sum != SKIN_WEIGHT_SUM {
            assert(skin_weight(bytes@, i as int, 0) + skin_weight(bytes@, i as int, 1) + skin_weight(bytes@, i as int, 2) + skin_weight(bytes@, i as int, 3) != SKIN_WEIGHT_SUM);
            return Err(header_error("weight sum"));
        }
        out_weights.push(w);
        i += 1;
    }
    let xbase = 20 + 18 * nv;
    let mut out_idx: Vec<u32> = Vec::new();
    let mut i: usize = 0;
    while i < ni
        invariant
            bytes@.len() <= usize::MAX,
            skin_sized(bytes@),
            nv == skin_nv(bytes@),
            ni == skin_ni(bytes@),
            verts == skin_nv(bytes@),
            xbase == 20 + 18 * nv,
            i <= ni,
            out_idx@.len() == i,
            forall|j: int| 0 <= j < i ==> #[trigger] out_idx@[j] == skin_index(bytes@, j),
            forall|j: int| 0 <= j < i ==> #[trigger] skin_index(bytes@, j) < skin_nv(bytes@),
        decreases ni - i,
    {
        let ix = read_u32(bytes, xbase + 4 * i);
        if ix >= verts {
            assert(skin_index(bytes@, i as int) >= skin_nv(bytes@));
            return Err(header_error("index out of range"));
        }
        out_idx.push(ix);
        i += 1;
    }
    Ok(
        DecodedSkinnedMesh {
            info: SkinnedMeshInfo { verts, indices, bones },
            verts: out_verts,
            joints: out_joints,
            weights: out_weights,
            indices: out_idx,
        },
    )
}

/// The encoder's inputs are within the format's counts and caps.
pub open spec fn skin_inputs_fit(nv: int, nj: int, nw: int, ni: int, bones: int) -> bool {
    &&& nj == nv
    &&& nw == nv
    &&& nv <= MAX_SKIN_VERTS
    &&& ni % 3 == 0
    &&& ni / 3 <= MAX_TRIS
    &&& bones <= MAX_SKIN_BONES
}

/// Encode a skinned mesh. Lengths of `joints` / `weights` must match `verts`.
/// Decoding the result reads back exactly the inputs; when the joints name bones,
/// the weights sum to [`SKIN_WEIGHT_SUM`] and the indices name vertices, the blob
/// is well formed.
#[verifier::rlimit(50)]
#[verifier::spinoff_prover]
pub fn encode_skinned_mesh(
    kind: u8,
    verts: &[[i16; 3]],
    joints: &[[u8; 4]],
    weights: &[[u16; 4]],
    indices: &[u32],
    bones: u32,
) -> (r: Result<Vec<u8>, CompileError>)
    ensures
        match r {
            Ok(b) => {
                &&& skin_inputs_fit(verts@.len() as int, joints@.len() as int, weights@.len() as int, indices@.len() as int, bones as int)
                &&& has_kind(b@, kind)
                &&& skin_sized(b@)
                &&& skin_nv(b@) == verts@.len()
                &&& skin_ni(b@) == indices@.len()
                &&& skin_bones(b@) == bones
                &&& forall|i: int, k: int| 0 <= i < verts@.len() && 0 <= k < 3 ==> #[trigger] skin_vert(b@, i, k) == verts@[i][k]
                &&& forall|i: int, k: int| 0 <= i < verts@.len() && 0 <= k < 4 ==> #[trigger] skin_joint(b@, i, k) == joints@[i][k]
                &&& forall|i: int, k: int| 0 <= i < verts@.len() && 0 <= k < 4 ==> #[trigger] skin_weight(b@, i, k) == weights@[i][k]
                &&& forall|i: int| 0 <= i < indices@.len() ==> #[trigger] skin_index(b@, i) == indices@[i]
                &&& ((forall|i: int, k: int| 0 <= i < verts@.len() && 0 <= k < 4 ==> joint_ok(#[trigger] joints@[i][k] as int, bones as int))
                    && (forall|i: int| 0 <= i < verts@.len() ==> #[trigger] weights@[i][0] + weights@[i][1] + weights@[i][2] + weights@[i][3] == SKIN_WEIGHT_SUM)
                    && (forall|i: int| 0 <= i < indices@.len() ==> #[trigger] indices@[i] < verts@.len()))
                    ==> skinned_ok(b@, kind)
            },
            Err(e) => !skin_inputs_fit(verts@.len() as int, joints@.len() as int, weights@.len() as int, indices@.len() as int, bones as int) && e is Header,
        },
{
    if joints.len() != verts.len() || weights.len() != verts.len() {
        return Err(header_error("weight count mismatch"));
    }
    if verts.len() > MAX_SKIN_VERTS as usize {
        return Err(CompileError::Header(cap_message("verts", verts.len() as u64, MAX_SKIN_VERTS as u64)));
    }
    if indices.len() % 3 != 0 {
        return Err(header_error("index count not multiple of 3"));
    }
    let tris = indices.len() / 3;
    if tris > MAX_TRIS as usize {
        return Err(CompileError::Header(cap_message("tris", tris as u64, MAX_TRIS as u64)));
    }
    if bones > MAX_SKIN_BONES {
        return Err(CompileError::Header(cap_message("bones", bones as u64, MAX_SKIN_BONES as u64)));
    }
    let nv = verts.len();
    let ni = indices.len();
    let mut b: Vec<u8> = Vec::new();
    write_prefix(&mut b, kind);
    let ghost s0 = b@;
    push_u32(&mut b, nv as u32);
    let ghost s1 = b@;
    push_u32(&mut b, ni as u32);
    let ghost s2 = b@;
    push_u32(&mut b, bones);
    proof {
        lemma_append_prefix(s0, u32_bytes(nv as int));
        lemma_append_prefix(s1, u32_bytes(ni as int));
        lemma_append_prefix(s2, u32_bytes(bones as int));
        lemma_le32_appended(s0, nv as int);
        lemma_le32_appended(s1, ni as int);
        lemma_le32_appended(s2, bones as int);
        lemma_readings_extend(s1, s2);
        lemma_readings_extend(s2, b@);
        lemma_readings_extend(s1, b@);
        assert(b@.take(4) =~= spec_magic());
    }
    let ghost hdr = b@;
    let mut i: usize = 0;
    while i < nv
        invariant
            nv == verts@.len(),
            nv <= MAX_SKIN_VERTS,
            i <= nv,
            hdr.len() == 20,
            b@.len() == 20 + 6 * i,
            b@.take(20) == hdr,
            forall|j: int, k: int| 0 <= j < i && 0 <= k < 3 ==> #[trigger] le16(b@, 20 + 6 * j + 2 * k) == pattern16(verts@[j][k] as int),
        decreases nv - i,
    {
        let v = verts[i];
        let mut k: usize = 0;
        while k < 3
            invariant
                nv == verts@.len(),
                nv <= MAX_SKIN_VERTS,
                i < nv,
                k <= 3,
                v == verts@[i as int],
                hdr.len() == 20,
                b@.len() == 20 + 6 * i + 2 * k,
                b@.take(20) == hdr,
                forall|j: int, q: int| 0 <= j < i && 0 <= q < 3 ==> #[trigger] le16(b@, 20 + 6 * j + 2 * q) == pattern16(verts@[j][q] as int),
                forall|q: int| 0 <= q < k ==> #[trigger] le16(b@, 20 + 6 * i + 2 * q) == pattern16(verts@[i as int][q] as int),
            decreases 3 - k,
        {
            let p = i16_pattern(v[k]);
            let ghost before = b@;
            push_u16(&mut b, p);
            proof {
                lemma_append_prefix(before, u16_bytes(p as int));
                lemma_readings_extend(before, b@);
                lemma_le16_appended(before, p as int);
                assert(b@.take(20) == before.take(20));
            }
            k += 1;
        }
        i += 1;
    }
    let ghost sv = b@;
    let mut i: usize = 0;
    while i < nv
        invariant
            nv == verts@.len(),
            nv == joints@.len(),
            nv <= MAX_SKIN_VERTS,
            i <= nv,
            sv.len() == 20 + 6 * nv,
            b@.len() == 20 + 6 * nv + 4 * i,
            b@.take(sv.len() as int) == sv,
            forall|j: int, k: int| 0 <= j < i && 0 <= k < 4 ==> #[trigger] b@[20 + 6 * nv + 4 * j + k] == joints@[j][k],
        decreases nv - i,
    {
        let j = joints[i];
        let ghost before = b@;
        b.push(j[0]);
        b.push(j[1]);
        b.push(j[2]);
        b.push(j[3]);
        proof {
            assert(b@ =~= before + seq![j[0], j[1], j[2], j[3]]);
            lemma_append_prefix(before, seq![j[0], j[1], j[2], j[3]]);
            lemma_readings_extend(before, b@);
            assert(b@.take(sv.len() as int) == before.take(sv.len() as int));
            assert(j == joints@[i as int]);
        }
        i += 1;
    }
    let ghost sj = b@;
    let mut i: usize = 0;
    while i < nv
        invariant
            nv == verts@.len(),
            nv == weights@.len(),
            nv <= MAX_SKIN_VERTS,
            i <= nv,
            sj.len() == 20 + 10 * nv,
            b@.len() == 20 + 10 * nv + 8 * i,
            b@.take(sj.len() as int) == sj,
            forall|j: int, k: int| 0 <= j < i && 0 <= k < 4 ==> #[trigger] le16(b@, 20 + 10 * nv + 8 * j + 2 * k) == weights@[j][k],
        decreases nv - i,
    {
        let w = weights[i];
        let mut k: usize = 0;
        while k < 4
            invariant
                nv == weights@.len(),
                nv <= MAX_SKIN_VERTS,
                i < nv,
                k <= 4,
                w == weights@[i as int],
                sj.len() == 20 + 10 * nv,
                b@.len() == 20 + 10 * nv + 8 * i + 2 * k,
                b@.take(sj.len() as int) == sj,
                forall|j: int, q: int| 0 <= j < i && 0 <= q < 4 ==> #[trigger] le16(b@, 20 + 10 * nv + 8 * j + 2 * q) == weights@[j][q],
                forall|q: int| 0 <= q < k ==> #[trigger] le16(b@, 20 + 10 * nv + 8 * i + 2 * q) == weights@[i as int][q],
            decreases 4 - k,
        {
            let ghost before = b@;
            push_u16(&mut b, w[k]);
            proof {
                lemma_append_prefix(before, u16_bytes(w[k as int] as int));
                lemma_readings_extend(before, b@);
                lemma_le16_appended(before, w[k as int] as int);
                assert(b@.take(sj.len() as int) == before.take(sj.len() as int));
            }
            k += 1;
        }
        i += 1;
    }
    let ghost sw = b@;
    let mut i: usize = 0;
    while i < ni
        invariant
            nv == verts@.len(),
            ni == indices@.len(),
            nv <= MAX_SKIN_VERTS,
            ni / 3 <= MAX_TRIS,
            i <= ni,
            sw.len() == 20 + 18 * nv,
            b@.len() == 20 + 18 * nv + 4 * i,
            b@.take(sw.len() as int) == sw,
            forall|j: int| 0 <= j < i ==> #[trigger] le32(b@, 20 + 18 * nv + 4 * j) == indices@[j],
        decreases ni - i,
    {
        let ghost before = b@;
        push_u32(&mut b, indices[i]);
        proof {
            lemma_append_prefix(before, u32_bytes(indices@[i as int] as int));
            lemma_readings_extend(before, b@);
            lemma_le32_appended(before, indices@[i as int] as int);
            assert(b@.take(sw.len() as int) == before.take(sw.len() as int));
        }
        i += 1;
    }
    proof {
        lemma_readings_extend(hdr, sv);
        lemma_readings_extend(sv, sj);
        lemma_readings_extend(sj, sw);
        lemma_readings_extend(sw, b@);
        lemma_readings_extend(hdr, b@);
        lemma_readings_extend(sv, b@);
        lemma_readings_extend(sj, b@);
        assert(b@.take(4) == hdr.take(4));
        assert forall|i: int, k: int| 0 <= i < verts@.len() && 0 <= k < 3 implies #[trigger] skin_vert(b@, i, k) == verts@[i][k] by {
            lemma_signed16_pattern(verts@[i][k] as int);
        }
    }
    Ok(b)
}

/// Parsed probe-grid header.
#[derive(Copy, Clone, PartialEq, Eq, Debug)]
pub struct ProbeGridInfo {
    /// Origin, millimetres.
    pub origin: IVec3,
    /// Cell size, millimetres.
    pub spacing_mm: i32,
    /// Cell counts along X, Y, Z.
    pub dim: (u8, u8, u8),
}

/// Integer irradiance samples after header validation.
#[derive(Clone, PartialEq, Eq, Debug)]
pub struct DecodedProbeGrid {
    /// Counts and transform.
    pub info: ProbeGridInfo,
    /// RGB milli-irradiance, `len == cells * 3`.
    pub samples_milli: Vec<u16>,
}

/// Product of the three cell counts.
pub open spec fn cell_product(d0: u8, d1: u8, d2: u8) -> int {
    d0 * d1 * d2
}

/// A legal cell count: at least one cell and at most [`MAX_PROBE_CELLS`].
pub open spec fn cells_ok(d0: u8, d1: u8, d2: u8) -> bool {
    1 <= cell_product(d0, d1, d2) <= MAX_PROBE_CELLS
}

/// Cell count of a probe volume; fails when empty or over the cap.
pub fn probe_cell_count(dim: (u8, u8, u8)) -> (r: Result<u32, CompileError>)
    ensures
        match r {
            Ok(c) => cells_ok(dim.0, dim.1, dim.2) && c == cell_product(dim.0, dim.1, dim.2),
            Err(e) => !cells_ok(dim.0, dim.1, dim.2) && e is Header,
        },
{
    proof {
        assert(0 <= dim.0 * dim.1 <= 255 * 255) by (nonlinear_arith)
            requires
                0 <= dim.0 <= 255,
                0 <= dim.1 <= 255,
        ;
        assert(0 <= (dim.0 * dim.1) * dim.2 <= 255 * 255 * 255) by (nonlinear_arith)
            requires
                0 <= dim.0 * dim.1 <= 255 * 255,
                0 <= dim.2 <= 255,
        ;
    }
    let cells = (dim.0 as u32) * (dim.1 as u32) * (dim.2 as u32);
    if cells == 0 || cells > MAX_PROBE_CELLS {
        return Err(header_error("probe cell count"));
    }
    Ok(cells)
}

/// Cell count of a probe-grid blob.
pub open spec fn probe_cells(b: Seq<u8>) -> int {
    cell_product(b[24], b[25], b[26])
}

/// A well-formed probe grid: positive spacing, legal cell count, exact size.
pub open spec fn probe_ok(b: Seq<u8>, kind: u8) -> bool {
    &&& has_kind(b, kind)
    &&& b.len() >= 28
    &&& signed32(le32(b, 20)) > 0
    &&& cells_ok(b[24], b[25], b[26])
    &&& b.len() == 28 + 6 * probe_cells(b)
}

/// The header fields read from a probe-grid blob.
pub open spec fn probe_info_of(b: Seq<u8>, info: ProbeGridInfo) -> bool {
    &&& info.origin.x == signed32(le32(b, 8))
    &&& info.origin.y == signed32(le32(b, 12))
    &&& info.origin.z == signed32(le32(b, 16))
    &&& info.spacing_mm == signed32(le32(b, 20))
    &&& info.dim == (b[24], b[25], b[26])
}

/// Validate a baked probe-grid blob.
pub fn validate_probe_grid(bytes: &[u8], kind: u8) -> (r: Result<ProbeGridInfo, CompileError>)
    ensures
        match r {
            Ok(info) => probe_ok(bytes@, kind) && probe_info_of(bytes@, info),
            Err(e) => !probe_ok(bytes@, kind) && e is Header,
        },
{
    peek(bytes, kind)?;
    if bytes.len() < 28 {
        return Err(header_error("truncated probe grid"));
    }
    let origin = IVec3 { x: read_i32(bytes, 8), y: read_i32(bytes, 12), z: read_i32(bytes, 16) };
    let spacing_mm = read_i32(bytes, 20);
    if spacing_mm <= 0 {
        return Err(header_error("probe spacing"));
    }
    let dim = (bytes[24], bytes[25], bytes[26]);
    let cells = probe_cell_count(dim)?;
    if bytes.len() as u64 != 28 + 6 * (cells as u64) {
        return Err(header_error("probe payload size"));
    }
    Ok(ProbeGridInfo { origin, spacing_mm, dim })
}

/// Validate then copy milli-irradiance samples.
pub fn decode_probe_grid(bytes: &[u8], kind: u8) -> (r: Result<DecodedProbeGrid, CompileError>)
    ensures
        match r {
            Ok(d) => {
                &&& probe_ok(bytes@, kind)
                &&& probe_info_of(bytes@, d.info)
                &&& d.samples_milli@.len() == 3 * probe_cells(bytes@)
                &&& forall|i: int| 0 <= i < d.samples_milli@.len() ==> #[trigger] d.samples_milli@[i] == le16(bytes@, 28 + 2 * i)
            },
            Err(e) => !probe_ok(bytes@, kind) && e is Header,
        },
{
    let info = validate_probe_grid(bytes, kind)?;
    let cells = probe_cell_count(info.dim)?;
    let n = (cells as usize) * 3;
    let blen = bytes.len();
    let mut samples_milli: Vec<u16> = Vec::new();
    let mut i: usize = 0;
    while i < n
        invariant
            bytes@.len() <= usize::MAX,
            probe_ok(bytes@, kind),
            n == 3 * probe_cells(bytes@),
            i <= n,
            samples_milli@.len() == i,
            forall|j: int| 0 <= j < i ==> #[trigger] samples_milli@[j] == le16(bytes@, 28 + 2 * j),
        decreases n - i,
    {
        samples_milli.push(read_u16(bytes, 28 + 2 * i));
        i += 1;
    }
    Ok(DecodedProbeGrid { info, samples_milli })
}

/// Encode a baked probe grid. Samples must be `cells * 3` milli-RGB.
/// Decoding the result gives back exactly the inputs.
pub fn encode_probe_grid(
    kind: u8,
    origin: IVec3,
    spacing_mm: i32,
    dim: (u8, u8, u8),
    samples_milli: &[u16],
) -> (r: Result<Vec<u8>, CompileError>)
    ensures
        match r {
            Ok(b) => {
                &&& probe_ok(b@, kind)
                &&& probe_info_of(b@, ProbeGridInfo { origin, spacing_mm, dim })
                &&& b@[27] == 0
                &&& forall|i: int| 0 <= i < samples_milli@.len() ==> #[trigger] le16(b@, 28 + 2 * i) == samples_milli@[i]
                &&& samples_milli@.len() == 3 * cell_product(dim.0, dim.1, dim.2)
            },
            Err(e) => (spacing_mm <= 0 || !cells_ok(dim.0, dim.1, dim.2) || samples_milli@.len() != 3
                * cell_product(dim.0, dim.1, dim.2)) && e is Header,
        },
{
    if spacing_mm <= 0 {
        return Err(header_error("probe spacing"));
    }
    let cells = probe_cell_count(dim)? as usize;
    if samples_milli.len() != cells * 3 {
        return Err(header_error("probe sample count"));
    }
    let mut b: Vec<u8> = Vec::new();
    write_prefix(&mut b, kind);
    let ghost s0 = b@;
    push_u32(&mut b, i32_pattern(origin.x));
    let ghost s1 = b@;
    push_u32(&mut b, i32_pattern(origin.y));
    let ghost s2 = b@;
    push_u32(&mut b, i32_pattern(origin.z));
    let ghost s3 = b@;
    push_u32(&mut b, i32_pattern(spacing_mm));
    let ghost s4 = b@;
    b.push(dim.0);
    b.push(dim.1);
    b.push(dim.2);
    b.push(0);
    proof {
        lemma_append_prefix(s0, u32_bytes(pattern32(origin.x as int)));
        lemma_append_prefix(s1, u32_bytes(pattern32(origin.y as int)));
        lemma_append_prefix(s2, u32_bytes(pattern32(origin.z as int)));
        lemma_append_prefix(s3, u32_bytes(pattern32(spacing_mm as int)));
        lemma_signed32_pattern(origin.x as int);
        lemma_signed32_pattern(origin.y as int);
        lemma_signed32_pattern(origin.z as int);
        lemma_signed32_pattern(spacing_mm as int);
        lemma_le32_appended(s0, pattern32(origin.x as int));
        lemma_le32_appended(s1, pattern32(origin.y as int));
        lemma_le32_appended(s2, pattern32(origin.z as int));
        lemma_le32_appended(s3, pattern32(spacing_mm as int));
        assert(b@ =~= s4 + seq![dim.0, dim.1, dim.2, 0u8]);
        lemma_append_prefix(s4, seq![dim.0, dim.1, dim.2, 0u8]);
        lemma_readings_extend(s1, s2);
        lemma_readings_extend(s2, s3);
        lemma_readings_extend(s3, s4);
        lemma_readings_extend(s4, b@);
        lemma_readings_extend(s1, b@);
        lemma_readings_extend(s2, b@);
        lemma_readings_extend(s3, b@);
        assert(b@.take(4) =~= spec_magic());
    }
    let ghost hdr = b@;
    let n = samples_milli.len();
    let mut i: usize = 0;
    while i < n
        invariant
            n == samples_milli@.len(),
            n == 3 * cells,
            cells <= 256,
            i <= n,
            hdr.len() == 28,
            b@.len() == 28 + 2 * i,
            b@.take(28) == hdr,
            forall|j: int| 0 <= j < i ==> #[trigger] le16(b@, 28 + 2 * j) == samples_milli@[j],
        decreases n - i,
    {
        let ghost before = b@;
        push_u16(&mut b, samples_milli[i]);
        proof {
            lemma_append_prefix(before, u16_bytes(samples_milli@[i as int] as int));
            lemma_readings_extend(before, b@);
            lemma_le16_appended(before, samples_milli@[i as int] as int);
            assert(b@.take(28) == before.take(28));
        }
        i += 1;
    }
    proof {
        lemma_readings_extend(hdr, b@);
        assert(b@.take(4) == hdr.take(4));
    }
    Ok(b)
}

/// Parsed clip-set header.
#[derive(Copy, Clone, PartialEq, Eq, Structural, Debug)]
pub struct ClipSetInfo {
    /// Clip count.
    pub clips: u16,
}

/// One decoded clip after header validation.
#[derive(Clone, PartialEq, Eq, Debug)]
pub struct DecodedClip {
    /// Verb discriminant.
    pub verb: u8,
    /// Grounded selector.
    pub grounded: bool,
    /// Loop vs one-shot.
    pub looping: bool,
    /// Table index.
    pub id: u16,
    /// Per-tick root, millimetres, clip-local.
    pub samples: Vec<IVec3>,
}

/// Byte offset of clip `j`: clips follow the two-byte count, each an eight-byte
/// header followed by twelve bytes per sample.
pub open spec fn clip_offset(b: Seq<u8>, j: int) -> int
    decreases j,
{
    if j <= 0 {
        10
    } else {
        let o = clip_offset(b, j - 1);
        o + 8 + 12 * le16(b, o + 6)
    }
}

/// Sample count of clip `j`.
pub open spec fn clip_samples(b: Seq<u8>, j: int) -> int {
    le16(b, clip_offset(b, j) + 6)
}

/// Sample `s` of clip `j`.
pub open spec fn clip_sample(b: Seq<u8>, j: int, s: int) -> IVec3 {
    let o = clip_offset(b, j) + 8 + 12 * s;
    IVec3 {
        x: signed32(le32(b, o)) as i32,
        y: signed32(le32(b, o + 4)) as i32,
        z: signed32(le32(b, o + 8)) as i32,
    }
}

/// Clip count of a clip-set blob.
pub open spec fn clip_count(b: Seq<u8>) -> int {
    le16(b, 8)
}

/// A well-formed clip set: capped counts and clips that exactly fill the payload.
pub open spec fn clipset_ok(b: Seq<u8>, kind: u8) -> bool {
    &&& has_kind(b, kind)
    &&& b.len() >= 10
    &&& clip_count(b) <= MAX_CLIPS
    &&& forall|j: int| 0 <= j < clip_count(b) ==> #[trigger] clip_samples(b, j) <= MAX_CLIP_SAMPLES
    &&& clip_offset(b, clip_count(b)) == b.len()
}

/// Clip offsets grow by at least the eight-byte clip header.
pub proof fn lemma_clip_offset_grows(b: Seq<u8>, j: int, m: int)
    requires
        0 <= j <= m,
    ensures
        clip_offset(b, m) >= clip_offset(b, j) + 8 * (m - j),
    decreases m - j,
{
    if j < m {
        lemma_clip_offset_grows(b, j, m - 1);
        assert(le16(b, clip_offset(b, m - 1) + 6) >= 0) by {
            assert(b[clip_offset(b, m - 1) + 6] >= 0 && b[clip_offset(b, m - 1) + 7] >= 0);
        }
    }
}

/// Validate a clip-set blob. Caps: [`MAX_CLIPS`], [`MAX_CLIP_SAMPLES`].
pub fn validate_clipset(bytes: &[u8], kind: u8) -> (r: Result<ClipSetInfo, CompileError>)
    ensures
        match r {
            Ok(info) => clipset_ok(bytes@, kind) && info.clips == clip_count(bytes@),
            Err(e) => !clipset_ok(bytes@, kind) && e is Header,
        },
{
    match decode_clipset(bytes, kind) {
        Ok(c) => Ok(ClipSetInfo { clips: c.len() as u16 }),
        Err(e) => Err(e),
    }
}

/// Validate then copy clips. Call this before Motion upload / CAS bind.
pub fn decode_clipset(bytes: &[u8], kind: u8) -> (r: Result<Vec<DecodedClip>, CompileError>)
    ensures
        match r {
            Ok(cs) => {
                &&& clipset_ok(bytes@, kind)
                &&& cs@.len() == clip_count(bytes@)
                &&& forall|j: int| 0 <= j < cs@.len() ==> {
                    let o = clip_offset(bytes@, j);
                    &&& (#[trigger] cs@[j]).verb == bytes@[o]
                    &&& cs@[j].grounded == (bytes@[o + 1] != 0)
                    &&& cs@[j].looping == (bytes@[o + 2] != 0)
                    &&& cs@[j].id == le16(bytes@, o + 4)
                    &&& cs@[j].samples@.len() == clip_samples(bytes@, j)
                    &&& forall|s: int| 0 <= s < cs@[j].samples@.len() ==> #[trigger] cs@[j].samples@[s] == clip_sample(bytes@, j, s)
                }
            },
            Err(e) => !clipset_ok(bytes@, kind) && e is Header,
        },
{
    peek(bytes, kind)?;
    if bytes.len() < 10 {
        return Err(header_error("truncated clipset"));
    }
    let n = read_u16(bytes, 8);
    if n > MAX_CLIPS {
        return Err(CompileError::Header(cap_message("clips", n as u64, MAX_CLIPS as u64)));
    }
    let len = bytes.len();
    let mut off: usize = 10;
    let mut out: Vec<DecodedClip> = Vec::new();
    let mut j: u16 = 0;
    while j < n
        invariant
            len == bytes@.len(),
            has_kind(bytes@, kind),
            n == clip_count(bytes@),
            n <= MAX_CLIPS,
            j <= n,
            off == clip_offset(bytes@, j as int),
            off <= len,
            out@.len() == j,
            forall|q: int| 0 <= q < j ==> #[trigger] clip_samples(bytes@, q) <= MAX_CLIP_SAMPLES,
            forall|q: int| 0 <= q < j ==> {
                let o = clip_offset(bytes@, q);
                &&& (#[trigger] out@[q]).verb == bytes@[o]
                &&& out@[q].grounded == (bytes@[o + 1] != 0)
                &&& out@[q].looping == (bytes@[o + 2] != 0)
                &&& out@[q].id == le16(bytes@, o + 4)
                &&& out@[q].samples@.len() == clip_samples(bytes@, q)
                &&& forall|s: int| 0 <= s < out@[q].samples@.len() ==> #[trigger] out@[q].samples@[s] == clip_sample(bytes@, q, s)
            },
        decreases n - j,
    {
        if len - off < 8 {
            proof {
                lemma_clip_offset_grows(bytes@, j as int, n as int);
                lemma_clip_offset_grows(bytes@, j as int + 1, n as int);
            }
            return Err(header_error("truncated clip header"));
        }
        let verb = bytes[off];
        let grounded = bytes[off + 1];
        let looping = bytes[off + 2];
        let id = read_u16(bytes, off + 4);
        let ns = read_u16(bytes, off + 6);
        if ns > MAX_CLIP_SAMPLES {
            assert(clip_samples(bytes@, j as int) > MAX_CLIP_SAMPLES);
            return Err(CompileError::Header(cap_message("samples", ns as u64, MAX_CLIP_SAMPLES as u64)));
        }
        let body = 12 * (ns as usize);
        if len - off - 8 < body {
            proof {
                lemma_clip_offset_grows(bytes@, j as int + 1, n as int);
            }
            return Err(header_error("truncated i32"));
        }
        let base = off + 8;
        let mut samples: Vec<IVec3> = Vec::new();
        let mut s: usize = 0;
        while s < ns as usize
            invariant
                len == bytes@.len(),
                off == clip_offset(bytes@, j as int),
                base == off + 8,
                ns == clip_samples(bytes@, j as int),
                base + 12 * (ns as int) <= len,
                s <= ns,
                samples@.len() == s,
                forall|t: int| 0 <= t < s ==> #[trigger] samples@[t] == clip_sample(bytes@, j as int, t),
            decreases ns - s,
        {
            let o = base + 12 * s;
            samples.push(IVec3 { x: read_i32(bytes, o), y: read_i32(bytes, o + 4), z: read_i32(bytes, o + 8) });
            s += 1;
        }
        out.push(DecodedClip { verb, grounded: grounded != 0, looping: looping != 0, id, samples });
        off = base + body;
        j += 1;
    }
    if off != len {
        return Err(header_error("clipset payload size"));
    }
    Ok(out)
}

/// Decoding an encoded probe grid gives back exactly what was encoded: a
/// blob carrying `info` and `samples` (as the encoder writes them) is well
/// formed, and whatever the decoder reads from it (as its contract states)
/// is that same header and those same samples.
pub proof fn lemma_probe_round_trip(
    b: Seq<u8>,
    kind: u8,
    info: ProbeGridInfo,
    samples: Seq<u16>,
    read_info: ProbeGridInfo,
    read_samples: Seq<u16>,
)
    requires
        probe_ok(b, kind),
        probe_info_of(b, info),
        samples.len() == 3 * cell_product(info.dim.0, info.dim.1, info.dim.2),
        forall|i: int| 0 <= i < samples.len() ==> #[trigger] le16(b, 28 + 2 * i) == samples[i],
        probe_info_of(b, read_info),
        read_samples.len() == 3 * probe_cells(b),
        forall|i: int| 0 <= i < read_samples.len() ==> #[trigger] read_samples[i] == le16(b, 28 + 2 * i),
    ensures
        read_info == info,
        read_samples == samples,
{
    assert(read_samples =~= samples) by {
        assert forall|i: int| 0 <= i < read_samples.len() implies read_samples[i] == samples[i] by {
            assert(read_samples[i] == le16(b, 28 + 2 * i));
            assert(le16(b, 28 + 2 * i) == samples[i]);
        }
    }
}

/// Decoding an encoded skinned mesh gives back exactly the encoded
/// vertices, joints, weights and indices.
pub proof fn lemma_skinned_round_trip(
    b: Seq<u8>,
    verts: Seq<[i16; 3]>,
    joints: Seq<[u8; 4]>,
    weights: Seq<[u16; 4]>,
    indices: Seq<u32>,
    d: DecodedSkinnedMesh,
)
    requires
        skin_nv(b) == verts.len(),
        skin_ni(b) == indices.len(),
        forall|i: int, k: int| 0 <= i < verts.len() && 0 <= k < 3 ==> #[trigger] skin_vert(b, i, k) == verts[i][k],
        forall|i: int, k: int| 0 <= i < verts.len() && 0 <= k < 4 ==> #[trigger] skin_joint(b, i, k) == joints[i][k],
        forall|i: int, k: int| 0 <= i < verts.len() && 0 <= k < 4 ==> #[trigger] skin_weight(b, i, k) == weights[i][k],
        forall|i: int| 0 <= i < indices.len() ==> #[trigger] skin_index(b, i) == indices[i],
        joints.len() == verts.len(),
        weights.len() == verts.len(),
        d.verts@.len() == skin_nv(b),
        d.joints@.len() == skin_nv(b),
        d.weights@.len() == skin_nv(b),
        d.indices@.len() == skin_ni(b),
        forall|i: int, k: int| 0 <= i < skin_nv(b) && 0 <= k < 3 ==> #[trigger] d.verts@[i][k] == skin_vert(b, i, k),
        forall|i: int, k: int| 0 <= i < skin_nv(b) && 0 <= k < 4 ==> #[trigger] d.joints@[i][k] == skin_joint(b, i, k),
        forall|i: int, k: int| 0 <= i < skin_nv(b) && 0 <= k < 4 ==> #[trigger] d.weights@[i][k] == skin_weight(b, i, k),
        forall|i: int| 0 <= i < skin_ni(b) ==> #[trigger] d.indices@[i] == skin_index(b, i),
    ensures
        forall|i: int, k: int| 0 <= i < verts.len() && 0 <= k < 3 ==> #[trigger] d.verts@[i][k] == verts[i][k],
        forall|i: int, k: int| 0 <= i < verts.len() && 0 <= k < 4 ==> #[trigger] d.joints@[i][k] == joints[i][k],
        forall|i: int, k: int| 0 <= i < verts.len() && 0 <= k < 4 ==> #[trigger] d.weights@[i][k] == weights[i][k],
        d.indices@ == indices,
{
    assert forall|i: int, k: int| 0 <= i < verts.len() && 0 <= k < 3 implies #[trigger] d.verts@[i][k] == verts[i][k] by {
        assert(d.verts@[i][k] == skin_vert(b, i, k));
    }
    assert forall|i: int, k: int| 0 <= i < verts.len() && 0 <= k < 4 implies #[trigger] d.joints@[i][k] == joints[i][k] by {
        assert(d.joints@[i][k] == skin_joint(b, i, k));
    }
    assert forall|i: int, k: int| 0 <= i < verts.len() && 0 <= k < 4 implies #[trigger] d.weights@[i][k] == weights[i][k] by {
        assert(d.weights@[i][k] == skin_weight(b, i, k));
    }
    assert(d.indices@ =~= indices) by {
        assert forall|i: int| 0 <= i < indices.len() implies d.indices@[i] == indices[i] by {
            assert(d.indices@[i] == skin_index(b, i));
        }
    }
}

} // verus!
