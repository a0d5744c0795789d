//! Loading and normalization of 3D triangle meshes.
//!
//! Two on-disk formats are read: Wavefront OBJ text (the `v`, `vn` and `f`
//! records) and a restricted, non-binary glTF 2.0 document (one mesh, one
//! primitive, one buffer, `POSITION` plus one index accessor). Both produce
//! the same normalized [`mesh::Mesh`]: flat vertex positions, a `u32`
//! triangle index list, and optional normals. A bounds pass then derives the
//! uniform scale and center offset that fit any mesh into a canonical
//! two-unit viewing volume.
//!
//! Floating-point positions are carried as their IEEE 754 bit patterns
//! (`u32`), so all parsing and bounds logic is stated and proved over plain
//! integers: OBJ numeric tokens are validated against the float-literal
//! grammar and handed out as text, glTF components are assembled from
//! little-endian bytes, and the bounds scan orders bit patterns by the IEEE
//! comparison predicate written out in integer arithmetic. The remaining
//! genuinely floating-point steps — turning a validated token into a value,
//! and deriving the center and scale from the bounds — stay with the
//! caller at the I/O edge.

pub mod bounds;
pub mod dispatch;
pub mod gltf;
pub mod mesh;
pub mod obj;
pub mod text;
