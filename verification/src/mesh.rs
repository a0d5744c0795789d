//! The shared data model: vertices as bit patterns, the normalized mesh,
//! and the error taxonomy common to every loader.

use vstd::prelude::*;

verus! {

/// One 3-component position or normal vector. Each component holds the IEEE
/// 754 bit pattern of an `f32`, so that the parsers and the bounds pass can
/// be specified over plain integers. Converting a component back to a float
/// is `f32::from_bits`, a lossless reinterpretation.
#[derive(Clone, Copy, Debug, PartialEq, Eq, Structural)]
pub struct Vec3Bits {
    pub x: u32,
    pub y: u32,
    pub z: u32,
}

/// The normalized, renderer-ready mesh: flat positions, a triangle index
/// list (each consecutive triple names one triangle by vertex id), and
/// optional per-record normals (populated by the OBJ path only).
pub struct Mesh {
    pub vertices: Vec<Vec3Bits>,
    pub indices: Vec<u32>,
    pub normals: Option<Vec<Vec3Bits>>,
}

/// Which component of a vertex or normal record failed to parse.
#[derive(Clone, Copy, Debug, PartialEq, Eq, Structural)]
pub enum Axis {
    X,
    Y,
    Z,
}

/// Everything a loader can fail with. Parsers surface these to the
/// dispatcher unchanged; the dispatcher surfaces them to the caller.
#[derive(Clone, Copy, Debug, PartialEq, Eq, Structural)]
pub enum MeshError {
    /// Opening or reading a file failed (raised at the I/O edge).
    IoError,
    /// A `v` or `vn` record carried non-numeric text. `normal` tells the two
    /// record kinds apart; `line` is the zero-based line number.
    InvalidVertexComponent { axis: Axis, normal: bool, line: usize },
    /// The glTF JSON document did not have the expected structure.
    InvalidGltfJson,
    /// The external buffer file named by the glTF document could not be read.
    BufferReadError,
    /// A computed accessor range runs past the end of the binary buffer.
    BufferRangeError,
    /// An index accessor's `componentType` is none of the three supported
    /// unsigned integer types.
    UnsupportedIndexType,
    /// The file path ends in neither of the recognized suffixes.
    UnsupportedFormat,
}

impl MeshError {
    /// A short human-readable description of the failure kind.
    pub fn message(&self) -> (r: &'static str)
        ensures
            r@.len() > 0,
    {
        let r = match self {
            MeshError::IoError => "failed to open or read the file",
            MeshError::InvalidVertexComponent { axis, normal, line: _ } => match (normal, axis) {
                (false, Axis::X) => "invalid vertex x",
                (false, Axis::Y) => "invalid vertex y",
                (false, Axis::Z) => "invalid vertex z",
                (true, Axis::X) => "invalid normal x",
                (true, Axis::Y) => "invalid normal y",
                (true, Axis::Z) => "invalid normal z",
            },
            MeshError::InvalidGltfJson => "failed to parse the glTF JSON document",
            MeshError::BufferReadError => "failed to read the glTF binary buffer",
            MeshError::BufferRangeError => "accessor range exceeds the buffer length",
            MeshError::UnsupportedIndexType => "unsupported index component type",
            MeshError::UnsupportedFormat => (
                "unsupported file format, only .obj and .gltf (not .glb) files are supported"
            ),
        };
        proof {
            reveal_strlit("failed to open or read the file");
            reveal_strlit("invalid vertex x");
            reveal_strlit("invalid vertex y");
            reveal_strlit("invalid vertex z");
            reveal_strlit("invalid normal x");
            reveal_strlit("invalid normal y");
            reveal_strlit("invalid normal z");
            reveal_strlit("failed to parse the glTF JSON document");
            reveal_strlit("failed to read the glTF binary buffer");
            reveal_strlit("accessor range exceeds the buffer length");
            reveal_strlit("unsupported index component type");
            reveal_strlit(
                "unsupported file format, only .obj and .gltf (not .glb) files are supported",
            );
        }
        r
    }
}

} // verus!
