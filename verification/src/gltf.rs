//! The restricted glTF reader: one mesh, one primitive, one buffer, a
//! `POSITION` attribute and one index accessor.
//!
//! The caller hands in the already-structured document (the JSON binding
//! is an I/O-edge concern) together with the raw bytes of the buffer file.
//! Everything after that is verified: resolving accessor and buffer-view
//! references, computing byte offsets, checking every computed range
//! against the buffer's length, and decoding little-endian scalars.
//! Positions are twelve tightly packed bytes each (three 32-bit
//! little-endian float components, kept as their bit patterns); indices
//! are unsigned 8-, 16- or 32-bit little-endian values, each widened to
//! 32 bits. The accessor's `type`/`componentType` are not validated
//! against the `VEC3`/float assumption for positions — a documented
//! limitation kept as it stands.

use vstd::prelude::*;

use crate::mesh::Mesh;
use crate::mesh::MeshError;
use crate::mesh::Vec3Bits;

verus! {

/// A raw binary buffer declaration: the sibling file it names and its
/// declared length (the declaration is carried, not enforced).
pub struct Buffer {
    pub uri: String,
    pub byte_length: usize,
}

/// A window into a buffer.
pub struct BufferView {
    pub buffer: usize,
    pub byte_offset: Option<usize>,
    pub byte_length: usize,
}

/// A typed array living inside a buffer view.
pub struct Accessor {
    pub buffer_view: usize,
    pub byte_offset: Option<usize>,
    pub component_type: u32,
    pub count: usize,
    pub accessor_type: String,
}

/// The first primitive's wiring: the accessor index of its `POSITION`
/// attribute, if declared, and of its index list, if declared.
pub struct Primitive {
    pub position: Option<usize>,
    pub indices: Option<usize>,
}

pub struct GltfMesh {
    pub primitives: Vec<Primitive>,
}

/// The parts of a glTF document this reader consumes.
pub struct GltfFile {
    pub buffers: Vec<Buffer>,
    pub buffer_views: Vec<BufferView>,
    pub accessors: Vec<Accessor>,
    pub meshes: Vec<GltfMesh>,
}

/// A missing offset counts as zero.
pub open spec fn opt0(o: Option<usize>) -> int {
    match o {
        Some(v) => v as int,
        None => 0,
    }
}

/// A 16-bit little-endian value.
pub open spec fn le16(b0: u8, b1: u8) -> u32 {
    (b0 + 256 * b1) as u32
}

/// A 32-bit little-endian value.
pub open spec fn le32(b0: u8, b1: u8, b2: u8, b3: u8) -> u32 {
    (b0 + 256 * b1 + 65536 * b2 + 16777216 * b3) as u32
}

/// The byte size of one index of the given `componentType`: 5121 is an
/// unsigned byte, 5123 an unsigned short, 5125 an unsigned int; everything
/// else is unsupported.
pub open spec fn component_size_of(t: u32) -> Option<int> {
    if t == 5121 {
        Some(1)
    } else if t == 5123 {
        Some(2)
    } else if t == 5125 {
        Some(4)
    } else {
        None
    }
}

/// Whether accessor `ai` and the buffer view it names both exist.
pub open spec fn accessor_resolves(g: GltfFile, ai: int) -> bool {
    0 <= ai < g.accessors@.len() && g.accessors@[ai].buffer_view < g.buffer_views@.len()
}

/// Where accessor `ai`'s data starts: the view's offset plus the
/// accessor's own, each defaulting to zero.
pub open spec fn accessor_offset(g: GltfFile, ai: int) -> int {
    opt0(g.buffer_views@[g.accessors@[ai].buffer_view as int].byte_offset) + opt0(
        g.accessors@[ai].byte_offset,
    )
}

/// The i-th index stored at `off` with component size `csize`.
pub open spec fn index_at(buf: Seq<u8>, off: int, csize: int, i: int) -> u32 {
    if csize == 1 {
        buf[off + i] as u32
    } else if csize == 2 {
        le16(buf[off + 2 * i], buf[off + 2 * i + 1])
    } else {
        le32(buf[off + 4 * i], buf[off + 4 * i + 1], buf[off + 4 * i + 2], buf[off + 4 * i + 3])
    }
}

/// The i-th position stored at `off`: three little-endian 32-bit
/// components in twelve tightly packed bytes.
pub open spec fn position_at(buf: Seq<u8>, off: int, i: int) -> Vec3Bits {
    Vec3Bits {
        x: le32(buf[off + 12 * i], buf[off + 12 * i + 1], buf[off + 12 * i + 2], buf[off + 12 * i + 3]),
        y: le32(
            buf[off + 12 * i + 4],
            buf[off + 12 * i + 5],
            buf[off + 12 * i + 6],
            buf[off + 12 * i + 7],
        ),
        z: le32(
            buf[off + 12 * i + 8],
            buf[off + 12 * i + 9],
            buf[off + 12 * i + 10],
            buf[off + 12 * i + 11],
        ),
    }
}

/// The vertex positions named by accessor `ai`: a dangling reference is a
/// structural fault, a range past the buffer's end a range fault.
pub open spec fn spec_positions(g: GltfFile, buf: Seq<u8>, ai: int) -> Result<
    Seq<Vec3Bits>,
    MeshError,
> {
    if !accessor_resolves(g, ai) {
        Err(MeshError::InvalidGltfJson)
    } else if accessor_offset(g, ai) + 12 * g.accessors@[ai].count > buf.len() {
        Err(MeshError::BufferRangeError)
    } else {
        Ok(
            Seq::new(
                g.accessors@[ai].count as nat,
                |i: int| position_at(buf, accessor_offset(g, ai), i),
            ),
        )
    }
}

/// The index list named by accessor `ai`, each entry widened to 32 bits.
pub open spec fn spec_indices(g: GltfFile, buf: Seq<u8>, ai: int) -> Result<Seq<u32>, MeshError> {
    if !accessor_resolves(g, ai) {
        Err(MeshError::InvalidGltfJson)
    } else {
        match component_size_of(g.accessors@[ai].component_type) {
            None => Err(MeshError::UnsupportedIndexType),
            Some(cs) => if accessor_offset(g, ai) + cs * g.accessors@[ai].count > buf.len() {
                Err(MeshError::BufferRangeError)
            } else {
                Ok(
                    Seq::new(
                        g.accessors@[ai].count as nat,
                        |i: int| index_at(buf, accessor_offset(g, ai), cs, i),
                    ),
                )
            },
        }
    }
}

/// The whole read: an absent mesh or primitive yields an empty result
/// rather than an error; otherwise positions are decoded first, then
/// indices, and the first fault wins.
pub open spec fn spec_parse_gltf(g: GltfFile, buf: Seq<u8>) -> Result<
    (Seq<Vec3Bits>, Seq<u32>),
    MeshError,
> {
    if g.meshes@.len() == 0 || g.meshes@[0].primitives@.len() == 0 {
        Ok((Seq::empty(), Seq::empty()))
    } else {
        let prim = g.meshes@[0].primitives@[0];
        let verts = match prim.position {
            Some(p) => spec_positions(g, buf, p as int),
            None => Ok(Seq::empty()),
        };
        let inds = match prim.indices {
            Some(q) => spec_indices(g, buf, q as int),
            None => Ok(Seq::empty()),
        };
        match (verts, inds) {
            (Err(e), _) => Err(e),
            (Ok(_), Err(e)) => Err(e),
            (Ok(v), Ok(ix)) => Ok((v, ix)),
        }
    }
}

/// Reads the 32-bit little-endian value at `s`.
fn read_le32(buf: &Vec<u8>, s: usize) -> (r: u32)
    requires
        s + 4 <= buf@.len() <= usize::MAX,
    ensures
        r == le32(buf@[s as int], buf@[s + 1], buf@[s + 2], buf@[s + 3]),
{
    let b0 = buf[s] as u32;
    let b1 = buf[s + 1] as u32;
    let b2 = buf[s + 2] as u32;
    let b3 = buf[s + 3] as u32;
    b0 + 256 * b1 + 65536 * b2 + 16777216 * b3
}

/// Reads the 16-bit little-endian value at `s`.
fn read_le16(buf: &Vec<u8>, s: usize) -> (r: u32)
    requires
        s + 2 <= buf@.len() <= usize::MAX,
    ensures
        r == le16(buf@[s as int], buf@[s + 1]),
{
    let b0 = buf[s] as u32;
    let b1 = buf[s + 1] as u32;
    b0 + 256 * b1
}

/// Resolves accessor `ai` and bounds-checks `csize * count` bytes at its
/// offset; returns the offset.
fn resolve_range(g: &GltfFile, buf_len: usize, ai: usize, csize: usize) -> (r: Result<
    usize,
    MeshError,
>)
    requires
        1 <= csize <= 16,
    ensures
        r matches Ok(off) ==> accessor_resolves(*g, ai as int) && off == accessor_offset(
            *g,
            ai as int,
        ) && off + csize * g.accessors@[ai as int].count <= buf_len,
        r matches Err(e) ==> (e == MeshError::InvalidGltfJson && !accessor_resolves(*g, ai as int))
            || (e == MeshError::BufferRangeError && accessor_resolves(*g, ai as int)
            && accessor_offset(*g, ai as int) + csize * g.accessors@[ai as int].count > buf_len),
{
    if ai >= g.accessors.len() {
        return Err(MeshError::InvalidGltfJson);
    }
    let acc = &g.accessors[ai];
    if acc.buffer_view >= g.buffer_views.len() {
        return Err(MeshError::InvalidGltfJson);
    }
    let view = &g.buffer_views[acc.buffer_view];
    let vo: usize = match view.byte_offset {
        Some(v) => v,
        None => 0,
    };
    let ao: usize = match acc.byte_offset {
        Some(v) => v,
        None => 0,
    };
    if vo > buf_len || ao > buf_len - vo {
        return Err(MeshError::BufferRangeError);
    }
    let off: usize = vo + ao;
    let room: usize = (buf_len - off) / csize;
    let ghost d = buf_len - off;
    let ghost cz = csize as int;
    let ghost q = room as int;
    proof {
        vstd::arithmetic::div_mod::lemma_fundamental_div_mod(d, cz);
        vstd::arithmetic::div_mod::lemma_mod_bound(d, cz);
        assert(cz * q <= d);
        assert(cz * (q + 1) == cz * q + cz) by (nonlinear_arith);
        assert(cz * (q + 1) > d);
    }
    if acc.count > room {
        proof {
            let ghost c = g.accessors@[ai as int].count as int;
            assert(cz * c >= cz * (q + 1)) by (nonlinear_arith)
                requires
                    c >= q + 1,
                    cz >= 1,
            ;
        }
        return Err(MeshError::BufferRangeError);
    }
    proof {
        let ghost c = g.accessors@[ai as int].count as int;
        assert(cz * c <= cz * q) by (nonlinear_arith)
            requires
                c <= q,
                cz >= 1,
        ;
    }
    Ok(off)
}

/// Decodes the `POSITION` data of accessor `ai`.
#[verifier::loop_isolation(false)]
fn decode_positions(g: &GltfFile, buf: &Vec<u8>, ai: usize) -> (r: Result<Vec<Vec3Bits>, MeshError>)
    ensures
        r is Ok <==> spec_positions(*g, buf@, ai as int) is Ok,
        r matches Ok(v) ==> spec_positions(*g, buf@, ai as int) matches Ok(s) && v@ == s,
        r matches Err(e) ==> spec_positions(*g, buf@, ai as int) == Err::<Seq<Vec3Bits>, MeshError>(
            e,
        ),
{
    let off = match resolve_range(g, buf.len(), ai, 12) {
        Ok(o) => o,
        Err(e) => {
            return Err(e);
        },
    };
    let count: usize = g.accessors[ai].count;
    let mut vs: Vec<Vec3Bits> = Vec::new();
    let mut i: usize = 0;
    while i < count
        invariant
            i <= count,
            vs@.len() == i,
            forall|k: int|
                0 <= k < i ==> vs@[k] == position_at(buf@, accessor_offset(*g, ai as int), k),
        decreases count - i,
    {
        let s: usize = off + i * 12;
        let x = read_le32(buf, s);
        let y = read_le32(buf, s + 4);
        let z = read_le32(buf, s + 8);
        vs.push(Vec3Bits { x, y, z });
        i += 1;
    }
    proof {
        assert(vs@ =~= spec_positions(*g, buf@, ai as int)->Ok_0);
    }
    Ok(vs)
}

/// Decodes the index data of accessor `ai`.
#[verifier::loop_isolation(false)]
fn decode_indices(g: &GltfFile, buf: &Vec<u8>, ai: usize) -> (r: Result<Vec<u32>, MeshError>)
    ensures
        r is Ok <==> spec_indices(*g, buf@, ai as int) is Ok,
        r matches Ok(v) ==> spec_indices(*g, buf@, ai as int) matches Ok(s) && v@ == s,
        r matches Err(e) ==> spec_indices(*g, buf@, ai as int) == Err::<Seq<u32>, MeshError>(e),
{
    if ai >= g.accessors.len() {
        return Err(MeshError::InvalidGltfJson);
    }
    if g.accessors[ai].buffer_view >= g.buffer_views.len() {
        return Err(MeshError::InvalidGltfJson);
    }
    let csize: usize = match g.accessors[ai].component_type {
        5121 => 1,
        5123 => 2,
        5125 => 4,
        _ => {
            return Err(MeshError::UnsupportedIndexType);
        },
    };
    let off = match resolve_range(g, buf.len(), ai, csize) {
        Ok(o) => o,
        Err(e) => {
            return Err(e);
        },
    };
    let count: usize = g.accessors[ai].count;
    let mut vs: Vec<u32> = Vec::new();
    let mut i: usize = 0;
    while i < count
        invariant
            i <= count,
            vs@.len() == i,
            forall|k: int|
                0 <= k < i ==> vs@[k] == index_at(
                    buf@,
                    accessor_offset(*g, ai as int),
                    csize as int,
                    k,
                ),
        decreases count - i,
    {
        let s: usize = off + i * csize;
        proof {
            assert(i * csize + csize <= count * csize) by (nonlinear_arith)
                requires
                    i < count,
                    csize >= 1,
            ;
            assert(count * csize == csize * count) by (nonlinear_arith);
        }
        let v: u32 = if csize == 1 {
            buf[s] as u32
        } else if csize == 2 {
            read_le16(buf, s)
        } else {
            read_le32(buf, s)
        };
        vs.push(v);
        i += 1;
    }
    proof {
        assert(vs@ =~= spec_indices(*g, buf@, ai as int)->Ok_0);
    }
    Ok(vs)
}

/// Reads the first mesh's first primitive out of the document against the
/// raw buffer bytes. An absent mesh, primitive or attribute degrades to an
/// empty part; a dangling accessor or buffer-view reference fails with
/// `InvalidGltfJson`, an unsupported index `componentType` with
/// `UnsupportedIndexType`, and any range past the buffer's end with
/// `BufferRangeError`. The result is exactly `spec_parse_gltf`; its
/// `normals` are always absent on this path.
pub fn parse_gltf(g: &GltfFile, buffer_data: &Vec<u8>) -> (r: Result<Mesh, MeshError>)
    ensures
        r is Ok <==> spec_parse_gltf(*g, buffer_data@) is Ok,
        r matches Ok(m) ==> spec_parse_gltf(*g, buffer_data@) matches Ok(p) && m.vertices@ == p.0
            && m.indices@ == p.1 && m.normals is None,
        r matches Err(e) ==> spec_parse_gltf(*g, buffer_data@) == Err::<
            (Seq<Vec3Bits>, Seq<u32>),
            MeshError,
        >(e),
{
    let mut vertices: Vec<Vec3Bits> = Vec::new();
    let mut indices: Vec<u32> = Vec::new();
    if g.meshes.len() > 0 {
        if g.meshes[0].primitives.len() > 0 {
            let prim = &g.meshes[0].primitives[0];
            match prim.position {
                Some(p) => {
                    match decode_positions(g, buffer_data, p) {
                        Ok(vs) => {
                            vertices = vs;
                        },
                        Err(e) => {
                            return Err(e);
                        },
                    }
                },
                None => {},
            }
            match prim.indices {
                Some(q) => {
                    match decode_indices(g, buffer_data, q) {
                        Ok(ix) => {
                            indices = ix;
                        },
                        Err(e) => {
                            return Err(e);
                        },
                    }
                },
                None => {},
            }
        }
    }
    Ok(Mesh { vertices, indices, normals: None })
}

} // verus!
