//! The format dispatcher: which parser a file path routes to, by
//! case-insensitive suffix.

use vstd::prelude::*;

use crate::mesh::MeshError;
use crate::text::low;
use crate::text::lower;

verus! {

/// The two on-disk formats this library reads.
#[derive(Clone, Copy, Debug, PartialEq, Eq, Structural)]
pub enum Format {
    Obj,
    Gltf,
}

/// The bytes of `s`, ASCII-folded to lower case.
pub open spec fn lower_all(s: Seq<u8>) -> Seq<u8> {
    s.map_values(|b: u8| lower(b))
}

/// Does `p` end in `suf`, ignoring ASCII case? `suf` is already lower
/// case.
pub open spec fn has_suffix_ci(p: Seq<u8>, suf: Seq<u8>) -> bool {
    p.len() >= suf.len() && lower_all(p.skip(p.len() - suf.len())) == suf
}

/// The bytes of `.obj`.
pub open spec fn obj_suffix() -> Seq<u8> {
    seq![46u8, 111u8, 98u8, 106u8]
}

/// The bytes of `.gltf`.
pub open spec fn gltf_suffix() -> Seq<u8> {
    seq![46u8, 103u8, 108u8, 116u8, 102u8]
}

/// Where a path routes: `.obj` to the OBJ parser, `.gltf` to the glTF
/// parser, anything else (a `.glb` container included) is unsupported.
pub open spec fn spec_detect(p: Seq<u8>) -> Result<Format, MeshError> {
    if has_suffix_ci(p, obj_suffix()) {
        Ok(Format::Obj)
    } else if has_suffix_ci(p, gltf_suffix()) {
        Ok(Format::Gltf)
    } else {
        Err(MeshError::UnsupportedFormat)
    }
}

/// Does `p` end in the lower-case suffix `suf`, ignoring ASCII case?
fn ends_with_ci(p: &Vec<u8>, suf: &Vec<u8>) -> (r: bool)
    ensures
        r == has_suffix_ci(p@, suf@),
{
    let n: usize = p.len();
    let m: usize = suf.len();
    if n < m {
        return false;
    }
    let off: usize = n - m;
    let ghost tail = lower_all(p@.skip(off as int));
    let mut i: usize = 0;
    while i < m
        invariant
            i <= m,
            off + m == n,
            n == p@.len(),
            m == suf@.len(),
            tail == lower_all(p@.skip(off as int)),
            forall|k: int| 0 <= k < i ==> #[trigger] tail[k] == suf@[k],
        decreases m - i,
    {
        proof {
            assert(tail[i as int] == lower(p@.skip(off as int)[i as int]));
            assert(p@.skip(off as int)[i as int] == p@[off + i]);
        }
        if low(p[off + i]) != suf[i] {
            return false;
        }
        i += 1;
    }
    proof {
        assert(tail =~= suf@);
    }
    true
}

/// Selects the parser for a file path by its suffix, ignoring ASCII case:
/// `.obj` routes to the OBJ parser and `.gltf` to the glTF parser; any
/// other name — `.glb` containers included — fails with
/// `UnsupportedFormat`.
pub fn detect_format(path: &Vec<u8>) -> (r: Result<Format, MeshError>)
    ensures
        r == spec_detect(path@),
{
    let obj_suf: Vec<u8> = vec![46u8, 111u8, 98u8, 106u8];
    let gltf_suf: Vec<u8> = vec![46u8, 103u8, 108u8, 116u8, 102u8];
    proof {
        assert(obj_suf@ =~= obj_suffix());
        assert(gltf_suf@ =~= gltf_suffix());
    }
    if ends_with_ci(path, &obj_suf) {
        Ok(Format::Obj)
    } else if ends_with_ci(path, &gltf_suf) {
        Ok(Format::Gltf)
    } else {
        Err(MeshError::UnsupportedFormat)
    }
}

} // verus!
