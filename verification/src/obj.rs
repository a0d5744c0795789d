//! The Wavefront OBJ reader: a line-oriented scan of the `v`, `vn` and `f`
//! records.
//!
//! The parser is total over the record structure: it validates each numeric
//! component against the float-literal grammar, resolves face corners to
//! zero-based indices, and fan-triangulates every face with at least three
//! resolved corners. The numeric component tokens are handed back as raw
//! bytes — converting them to float bit patterns is the one step this core
//! cannot hold, and is left to the caller at the I/O edge.
//!
//! The whole parse is specified as a fold (`obj_upto`) over the input's
//! lines; `parse_obj` is proved to return exactly that fold's result.

use vstd::prelude::*;

use crate::mesh::Axis;
use crate::mesh::MeshError;
use crate::text::byte_rows;
use crate::text::before_slash;
use crate::text::check_float_text;
use crate::text::is_float_text;
use crate::text::parse_u32;
use crate::text::spec_before_slash;
use crate::text::spec_lines;
use crate::text::spec_parse_u32;
use crate::text::spec_tokens;
use crate::text::split_lines;
use crate::text::tokenize;

verus! {

/// One `v` or `vn` record: its three numeric component tokens, exactly as
/// they stand in the source line (each valid float-literal text).
pub struct RawVec3 {
    pub x: Vec<u8>,
    pub y: Vec<u8>,
    pub z: Vec<u8>,
}

/// Everything the OBJ scan extracts: vertex records, normal records, and
/// the triangulated zero-based index list. An empty `normals` means the
/// source had no `vn` records, and maps to a mesh without normals.
pub struct ObjGeometry {
    pub vertices: Vec<RawVec3>,
    pub indices: Vec<u32>,
    pub normals: Vec<RawVec3>,
}

/// The spec-level image of the growing parse state.
pub ghost struct ObjState {
    pub vertices: Seq<(Seq<u8>, Seq<u8>, Seq<u8>)>,
    pub indices: Seq<u32>,
    pub normals: Seq<(Seq<u8>, Seq<u8>, Seq<u8>)>,
}

/// The component triples of a sequence of records.
pub open spec fn raw_rows(vs: Seq<RawVec3>) -> Seq<(Seq<u8>, Seq<u8>, Seq<u8>)> {
    Seq::new(vs.len(), |i: int| (vs[i].x@, vs[i].y@, vs[i].z@))
}

pub open spec fn obj_empty() -> ObjState {
    ObjState { vertices: Seq::empty(), indices: Seq::empty(), normals: Seq::empty() }
}

/// The zero-based position index of one face-corner token: the part before
/// the first slash, read as a decimal number, minus one. A corner whose
/// number does not parse resolves to nothing, and so does the number zero,
/// which has no zero-based form (source indices are one-based).
pub open spec fn corner(tok: Seq<u8>) -> Option<u32> {
    match spec_parse_u32(spec_before_slash(tok)) {
        Some(k) => if k >= 1 {
            Some((k - 1) as u32)
        } else {
            None
        },
        None => None,
    }
}

/// The corners of a face that resolve, in source order.
pub open spec fn resolve_corners(toks: Seq<Seq<u8>>) -> Seq<u32>
    decreases toks.len(),
{
    if toks.len() == 0 {
        Seq::empty()
    } else {
        let rest = resolve_corners(toks.drop_last());
        match corner(toks.last()) {
            Some(c) => rest.push(c),
            None => rest,
        }
    }
}

/// Fan triangulation from the first corner: for each i in 1..n-1 the
/// triangle (c0, ci, ci+1). Three corners come out as they stand; four
/// yield the fixed diagonal split (c0,c1,c2),(c0,c2,c3).
pub open spec fn fan(c: Seq<u32>) -> Seq<u32>
    decreases c.len(),
{
    if c.len() < 3 {
        Seq::empty()
    } else {
        fan(c.drop_last()) + seq![c[0], c[c.len() - 2], c[c.len() - 1]]
    }
}

/// The three component tokens of a `v` or `vn` line (`toks` holds the tag
/// and at least three more tokens), or the first axis whose token is not
/// valid float-literal text. Tokens past the third component are ignored.
pub open spec fn vertex_components(toks: Seq<Seq<u8>>) -> Result<(Seq<u8>, Seq<u8>, Seq<u8>), Axis> {
    if !is_float_text(toks[1]) {
        Err(Axis::X)
    } else if !is_float_text(toks[2]) {
        Err(Axis::Y)
    } else if !is_float_text(toks[3]) {
        Err(Axis::Z)
    } else {
        Ok((toks[1], toks[2], toks[3]))
    }
}

/// What one line does to the parse state. Lines whose first token is not
/// `v`, `vn` or `f` are skipped, as are `v`/`vn` lines with fewer than
/// three components and faces with fewer than three resolved corners.
pub open spec fn obj_line_step(st: ObjState, line: Seq<u8>, lineno: usize) -> Result<
    ObjState,
    MeshError,
> {
    let toks = spec_tokens(line);
    if toks.len() == 0 {
        Ok(st)
    } else if toks[0] == seq![118u8] {  // "v"
        if toks.len() < 4 {
            Ok(st)
        } else {
            match vertex_components(toks) {
                Ok(t) => Ok(
                    ObjState {
                        vertices: st.vertices.push(t),
                        indices: st.indices,
                        normals: st.normals,
                    },
                ),
                Err(a) => Err(
                    MeshError::InvalidVertexComponent { axis: a, normal: false, line: lineno },
                ),
            }
        }
    } else if toks[0] == seq![118u8, 110u8] {  // "vn"
        if toks.len() < 4 {
            Ok(st)
        } else {
            match vertex_components(toks) {
                Ok(t) => Ok(
                    ObjState {
                        vertices: st.vertices,
                        indices: st.indices,
                        normals: st.normals.push(t),
                    },
                ),
                Err(a) => Err(
                    MeshError::InvalidVertexComponent { axis: a, normal: true, line: lineno },
                ),
            }
        }
    } else if toks[0] == seq![102u8] {  // "f"
        let cs = resolve_corners(toks.skip(1));
        if cs.len() >= 3 {
            Ok(ObjState { vertices: st.vertices, indices: st.indices + fan(cs), normals: st.normals })
        } else {
            Ok(st)
        }
    } else {
        Ok(st)
    }
}

/// The parse state after the first `n` lines, or the first error.
pub open spec fn obj_upto(lines: Seq<Seq<u8>>, n: int) -> Result<ObjState, MeshError>
    decreases n,
{
    if n <= 0 {
        Ok(obj_empty())
    } else {
        match obj_upto(lines, n - 1) {
            Ok(st) => obj_line_step(st, lines[n - 1], (n - 1) as usize),
            Err(e) => Err(e),
        }
    }
}

/// The whole parse of an OBJ text.
pub open spec fn spec_parse_obj(text: Seq<u8>) -> Result<ObjState, MeshError> {
    obj_upto(spec_lines(text), spec_lines(text).len() as int)
}

/// An error stays an error however many more lines follow.
proof fn lemma_obj_upto_err(lines: Seq<Seq<u8>>, i: int, n: int)
    requires
        0 <= i <= n,
        obj_upto(lines, i) is Err,
    ensures
        obj_upto(lines, n) == obj_upto(lines, i),
    decreases n - i,
{
    if i < n {
        lemma_obj_upto_err(lines, i, n - 1);
    }
}

/// The i-th triangle of a fan, as the triple of its three indices.
pub open spec fn fan_triangle(c: Seq<u32>, i: int) -> (u32, u32, u32) {
    (fan(c)[3 * i], fan(c)[3 * i + 1], fan(c)[3 * i + 2])
}

/// A fan's length: three indices per triangle, one triangle fewer than
/// twice... exactly `c.len() - 2` triangles once three corners exist.
proof fn lemma_fan_len(c: Seq<u32>)
    ensures
        fan(c).len() % 3 == 0,
        c.len() >= 2 ==> fan(c).len() == 3 * (c.len() - 2),
    decreases c.len(),
{
    if c.len() >= 3 {
        lemma_fan_len(c.drop_last());
    }
}

/// Fan triangulation of n corners emits, in order, the triangle
/// (c0, ci, ci+1) for each i in 1..n-1: the fixed diagonal split for a
/// quad, and the general fan for every larger polygon.
pub proof fn lemma_fan_triangles(c: Seq<u32>)
    requires
        c.len() >= 3,
    ensures
        fan(c).len() == 3 * (c.len() - 2),
        forall|i: int|
            0 <= i < c.len() - 2 ==> #[trigger] fan_triangle(c, i) == (c[0], c[i + 1], c[i + 2]),
    decreases c.len(),
{
    lemma_fan_len(c);
    if c.len() == 3 {
        assert(fan(c.drop_last()) =~= Seq::<u32>::empty());
        assert(fan_triangle(c, 0) == (c[0], c[1], c[2]));
    } else {
        lemma_fan_triangles(c.drop_last());
        let d = c.drop_last();
        assert forall|i: int| 0 <= i < c.len() - 2 implies #[trigger] fan_triangle(c, i) == (
            c[0],
            c[i + 1],
            c[i + 2],
        ) by {
            if i < c.len() - 3 {
                assert(fan_triangle(d, i) == (d[0], d[i + 1], d[i + 2]));
                assert(fan(c)[3 * i] == fan(d)[3 * i]);
                assert(fan(c)[3 * i + 1] == fan(d)[3 * i + 1]);
                assert(fan(c)[3 * i + 2] == fan(d)[3 * i + 2]);
            } else {
                assert(3 * i == fan(d).len());
            }
        };
    }
}

/// A quad face yields exactly the two triangles of the fixed diagonal
/// split: (c0, c1, c2) and (c0, c2, c3).
pub proof fn lemma_fan_quad(c: Seq<u32>)
    requires
        c.len() == 4,
    ensures
        fan(c) == seq![c[0], c[1], c[2], c[0], c[2], c[3]],
{
    let d = c.drop_last();
    assert(fan(d.drop_last()) =~= Seq::<u32>::empty());
    assert(fan(d) =~= seq![c[0], c[1], c[2]]);
    assert(fan(c) =~= seq![c[0], c[1], c[2], c[0], c[2], c[3]]);
}

/// No more corners resolve than the face names.
proof fn lemma_resolve_corners_len(toks: Seq<Seq<u8>>)
    ensures
        resolve_corners(toks).len() <= toks.len(),
    decreases toks.len(),
{
    if toks.len() > 0 {
        lemma_resolve_corners_len(toks.drop_last());
    }
}

/// A corner token that does not resolve is dropped and nothing else
/// changes: the face's corners are those of the same face without that
/// token. (A face keeps being triangulated as long as at least three
/// corners remain, as `obj_line_step` states.)
pub proof fn lemma_corner_dropped(toks: Seq<Seq<u8>>, j: int)
    requires
        0 <= j < toks.len(),
        corner(toks[j]) is None,
    ensures
        resolve_corners(toks) == resolve_corners(toks.remove(j)),
    decreases toks.len(),
{
    if j == toks.len() - 1 {
        assert(toks.remove(j) =~= toks.drop_last());
    } else {
        lemma_corner_dropped(toks.drop_last(), j);
        assert(toks.remove(j).drop_last() =~= toks.drop_last().remove(j));
        assert(toks.remove(j).last() == toks.last());
    }
}

/// However many corner tokens were dropped, a face line whose remaining
/// corners still number at least three is triangulated: the step appends
/// exactly the fan of those corners and touches nothing else.
pub proof fn lemma_face_triangulated(st: ObjState, line: Seq<u8>, lineno: usize)
    requires
        spec_tokens(line).len() > 0,
        spec_tokens(line)[0] == seq![102u8],
        resolve_corners(spec_tokens(line).skip(1)).len() >= 3,
    ensures
        obj_line_step(st, line, lineno) == Ok::<ObjState, MeshError>(
            ObjState {
                vertices: st.vertices,
                indices: st.indices + fan(resolve_corners(spec_tokens(line).skip(1))),
                normals: st.normals,
            },
        ),
{
    let toks = spec_tokens(line);
    assert(toks[0].len() == 1 && toks[0][0] == 102);
    assert(toks[0] != seq![118u8]);
    assert(toks[0] != seq![118u8, 110u8]);
}

/// A line with fewer than four tokens never changes the state: a `v` or
/// `vn` record needs three components after its tag, and a face line with
/// at most two corner tokens cannot reach three resolved corners.
pub proof fn lemma_short_line_skipped(st: ObjState, line: Seq<u8>, lineno: usize)
    requires
        spec_tokens(line).len() < 4,
    ensures
        obj_line_step(st, line, lineno) == Ok::<ObjState, MeshError>(st),
{
    let toks = spec_tokens(line);
    if toks.len() > 0 && toks[0] == seq![102u8] {
        lemma_resolve_corners_len(toks.skip(1));
    }
}

/// Every index a fan emits is one of the face's corners, so a bound on the
/// corners bounds the fan.
proof fn lemma_fan_below(c: Seq<u32>, bound: int)
    requires
        forall|j: int| 0 <= j < c.len() ==> c[j] < bound,
    ensures
        forall|k: int| 0 <= k < fan(c).len() ==> fan(c)[k] < bound,
    decreases c.len(),
{
    if c.len() >= 3 {
        lemma_fan_below(c.drop_last(), bound);
        let tail = seq![c[0], c[c.len() - 2], c[c.len() - 1]];
        assert forall|k: int| 0 <= k < fan(c).len() implies fan(c)[k] < bound by {
            if k < fan(c.drop_last()).len() {
                assert(fan(c)[k] == fan(c.drop_last())[k]);
            } else {
                assert(fan(c)[k] == tail[k - fan(c.drop_last()).len()]);
            }
        };
    }
}

/// Every corner resolved on any of the first `n` lines stays below
/// `vcount`.
pub open spec fn faces_below(lines: Seq<Seq<u8>>, n: int, vcount: int) -> bool {
    forall|l: int, k: int|
        0 <= l < n && 0 <= k < resolve_corners(spec_tokens(lines[l]).skip(1)).len()
            ==> #[trigger] resolve_corners(spec_tokens(lines[l]).skip(1))[k] < vcount
}

proof fn lemma_obj_upto_div3(lines: Seq<Seq<u8>>, n: int)
    requires
        0 <= n,
        obj_upto(lines, n) is Ok,
    ensures
        obj_upto(lines, n)->Ok_0.indices.len() % 3 == 0,
    decreases n,
{
    if n > 0 {
        lemma_obj_upto_div3(lines, n - 1);
        let toks = spec_tokens(lines[n - 1]);
        if toks.len() > 0 && toks[0] != seq![118u8] && toks[0] != seq![118u8, 110u8] && toks[0]
            == seq![102u8] {
            lemma_fan_len(resolve_corners(toks.skip(1)));
        }
    }
}

proof fn lemma_obj_upto_below(lines: Seq<Seq<u8>>, n: int, vcount: int)
    requires
        0 <= n,
        obj_upto(lines, n) is Ok,
        faces_below(lines, n, vcount),
    ensures
        forall|k: int|
            0 <= k < obj_upto(lines, n)->Ok_0.indices.len() ==> #[trigger] obj_upto(
                lines,
                n,
            )->Ok_0.indices[k] < vcount,
    decreases n,
{
    if n > 0 {
        lemma_obj_upto_below(lines, n - 1, vcount);
        let toks = spec_tokens(lines[n - 1]);
        if toks.len() > 0 && toks[0] != seq![118u8] && toks[0] != seq![118u8, 110u8] && toks[0]
            == seq![102u8] {
            let cs = resolve_corners(toks.skip(1));
            assert(forall|k: int| 0 <= k < cs.len() ==> cs[k] < vcount);
            lemma_fan_below(cs, vcount);
        }
    }
}

/// Whatever OBJ text the parse accepts yields a triangle list whose length
/// is a multiple of three.
pub proof fn lemma_obj_indices_multiple_of_three(text: Seq<u8>)
    requires
        spec_parse_obj(text) is Ok,
    ensures
        spec_parse_obj(text)->Ok_0.indices.len() % 3 == 0,
{
    lemma_obj_upto_div3(spec_lines(text), spec_lines(text).len() as int);
}

/// On valid OBJ input — input whose resolved face corners all name one of
/// the file's vertex records — every emitted index names an existing
/// vertex.
pub proof fn lemma_obj_indices_in_range(text: Seq<u8>)
    requires
        spec_parse_obj(text) is Ok,
        faces_below(
            spec_lines(text),
            spec_lines(text).len() as int,
            spec_parse_obj(text)->Ok_0.vertices.len() as int,
        ),
    ensures
        forall|k: int|
            0 <= k < spec_parse_obj(text)->Ok_0.indices.len() ==> #[trigger] spec_parse_obj(
                text,
            )->Ok_0.indices[k] < spec_parse_obj(text)->Ok_0.vertices.len(),
{
    lemma_obj_upto_below(
        spec_lines(text),
        spec_lines(text).len() as int,
        spec_parse_obj(text)->Ok_0.vertices.len() as int,
    );
}

/// A fresh owned copy of a byte vector.
fn copy_bytes(v: &Vec<u8>) -> (r: Vec<u8>)
    ensures
        r@ == v@,
{
    let mut r: Vec<u8> = Vec::new();
    let mut i: usize = 0;
    while i < v.len()
        invariant
            i <= v@.len(),
            r@ == v@.take(i as int),
        decreases v@.len() - i,
    {
        r.push(v[i]);
        proof {
            assert(r@ =~= v@.take(i + 1));
        }
        i += 1;
    }
    proof {
        assert(v@.take(v@.len() as int) =~= v@);
    }
    r
}

/// Reads an OBJ text: every `v` and `vn` record with three valid numeric
/// components, and every face with at least three resolved corners,
/// fan-triangulated. The result is exactly the line fold `spec_parse_obj`;
/// the first invalid `v`/`vn` component aborts the parse with
/// `InvalidVertexComponent`, and nothing else fails.
#[verifier::loop_isolation(false)]
pub fn parse_obj(text: &Vec<u8>) -> (r: Result<ObjGeometry, MeshError>)
    ensures
        r is Ok <==> spec_parse_obj(text@) is Ok,
        r matches Ok(g) ==> spec_parse_obj(text@) matches Ok(st) && raw_rows(g.vertices@)
            == st.vertices && g.indices@ == st.indices && raw_rows(g.normals@) == st.normals,
        r matches Err(e) ==> spec_parse_obj(text@) == Err::<ObjState, MeshError>(e),
{
    let ghost slines = spec_lines(text@);
    let lines = split_lines(text);
    let mut vertices: Vec<RawVec3> = Vec::new();
    let mut indices: Vec<u32> = Vec::new();
    let mut normals: Vec<RawVec3> = Vec::new();
    let n: usize = lines.len();
    proof {
        assert(byte_rows(lines@).len() == slines.len());
        assert(raw_rows(vertices@) =~= Seq::<(Seq<u8>, Seq<u8>, Seq<u8>)>::empty());
        assert(raw_rows(normals@) =~= Seq::<(Seq<u8>, Seq<u8>, Seq<u8>)>::empty());
    }
    let mut i: usize = 0;
    while i < n
        invariant
            i <= n,
            obj_upto(slines, i as int) == Ok::<ObjState, MeshError>(
                ObjState {
                    vertices: raw_rows(vertices@),
                    indices: indices@,
                    normals: raw_rows(normals@),
                },
            ),
        decreases n - i,
    {
        let ghost st0 = ObjState {
            vertices: raw_rows(vertices@),
            indices: indices@,
            normals: raw_rows(normals@),
        };
        let ghost sline = slines[i as int];
        let ghost stoks = spec_tokens(sline);
        proof {
            assert(lines@[i as int]@ == byte_rows(lines@)[i as int]);
        }
        let toks = tokenize(&lines[i]);
        proof {
            assert(byte_rows(toks@) == stoks);
        }
        if toks.len() > 0 {
            proof {
                assert(toks@[0]@ == stoks[0]);
            }
            let m: usize = toks.len();
            let is_v = toks[0].len() == 1 && toks[0][0] == 118;
            let is_vn = toks[0].len() == 2 && toks[0][0] == 118 && toks[0][1] == 110;
            let is_f = toks[0].len() == 1 && toks[0][0] == 102;
            proof {
                assert(is_v ==> stoks[0] =~= seq![118u8]);
                assert(stoks[0] == seq![118u8] ==> is_v);
                assert(is_vn ==> stoks[0] =~= seq![118u8, 110u8]);
                assert(stoks[0] == seq![118u8, 110u8] ==> is_vn);
                assert(is_f ==> stoks[0] =~= seq![102u8]);
                assert(stoks[0] == seq![102u8] ==> is_f);
            }
            if is_v || is_vn {
                if m >= 4 {
                    proof {
                        assert(toks@[1]@ == stoks[1]);
                        assert(toks@[2]@ == stoks[2]);
                        assert(toks@[3]@ == stoks[3]);
                    }
                    if !check_float_text(&toks[1]) {
                        let e = MeshError::InvalidVertexComponent {
                            axis: Axis::X,
                            normal: is_vn,
                            line: i,
                        };
                        proof {
                            lemma_obj_upto_err(slines, i + 1, slines.len() as int);
                        }
                        return Err(e);
                    }
                    if !check_float_text(&toks[2]) {
                        let e = MeshError::InvalidVertexComponent {
                            axis: Axis::Y,
                            normal: is_vn,
                            line: i,
                        };
                        proof {
                            lemma_obj_upto_err(slines, i + 1, slines.len() as int);
                        }
                        return Err(e);
                    }
                    if !check_float_text(&toks[3]) {
                        let e = MeshError::InvalidVertexComponent {
                            axis: Axis::Z,
                            normal: is_vn,
                            line: i,
                        };
                        proof {
                            lemma_obj_upto_err(slines, i + 1, slines.len() as int);
                        }
                        return Err(e);
                    }
                    let rec = RawVec3 {
                        x: copy_bytes(&toks[1]),
                        y: copy_bytes(&toks[2]),
                        z: copy_bytes(&toks[3]),
                    };
                    if is_v {
                        let ghost v0 = vertices@;
                        vertices.push(rec);
                        proof {
                            assert(raw_rows(vertices@) =~= raw_rows(v0).push(
                                (stoks[1], stoks[2], stoks[3]),
                            ));
                        }
                    } else {
                        let ghost n0 = normals@;
                        normals.push(rec);
                        proof {
                            assert(raw_rows(normals@) =~= raw_rows(n0).push(
                                (stoks[1], stoks[2], stoks[3]),
                            ));
                        }
                    }
                }
            } else if is_f {
                let ghost face_toks = stoks.skip(1);
                let mut cs: Vec<u32> = Vec::new();
                let mut j: usize = 1;
                proof {
                    assert(face_toks.take(0) =~= Seq::<Seq<u8>>::empty());
                }
                while j < m
                    invariant
                        1 <= j <= m,
                        cs@ == resolve_corners(face_toks.take(j - 1)),
                    decreases m - j,
                {
                    proof {
                        assert(face_toks.take(j as int).drop_last() =~= face_toks.take(j - 1));
                        assert(face_toks.take(j as int).last() == stoks[j as int]);
                        assert(toks@[j as int]@ == stoks[j as int]);
                    }
                    let pre = before_slash(&toks[j]);
                    match parse_u32(&pre) {
                        Some(k) => {
                            if k >= 1 {
                                cs.push(k - 1);
                            }
                        },
                        None => {},
                    }
                    j += 1;
                }
                proof {
                    assert(face_toks.take(m - 1) =~= face_toks);
                }
                if cs.len() >= 3 {
                    let c0 = cs[0];
                    let ghost ind0 = indices@;
                    proof {
                        assert(ind0 + fan(cs@.take(2)) =~= ind0);
                    }
                    let mut t: usize = 2;
                    while t < cs.len()
                        invariant
                            2 <= t <= cs@.len(),
                            indices@ == ind0 + fan(cs@.take(t as int)),
                        decreases cs@.len() - t,
                    {
                        proof {
                            assert(cs@.take(t + 1).drop_last() =~= cs@.take(t as int));
                        }
                        indices.push(c0);
                        indices.push(cs[t - 1]);
                        indices.push(cs[t]);
                        proof {
                            assert(indices@ =~= ind0 + fan(cs@.take(t + 1)));
                        }
                        t += 1;
                    }
                    proof {
                        assert(cs@.take(cs@.len() as int) =~= cs@);
                    }
                }
            }
        }
        proof {
            assert(obj_upto(slines, i + 1) == obj_line_step(st0, sline, i));
            assert(obj_line_step(st0, sline, i) == Ok::<ObjState, MeshError>(
                ObjState {
                    vertices: raw_rows(vertices@),
                    indices: indices@,
                    normals: raw_rows(normals@),
                },
            ));
        }
        i += 1;
    }
    Ok(ObjGeometry { vertices, indices, normals })
}

} // verus!
