use rsview::bounds::Bounds;
use rsview::bounds::calculate_model_bounds;
use rsview::dispatch::Format;
use rsview::dispatch::detect_format;
use rsview::mesh::MeshError;
use rsview::mesh::Vec3Bits;
use rsview::obj::ObjGeometry;
use rsview::obj::parse_obj;

fn bits(x: f32, y: f32, z: f32) -> Vec3Bits {
    Vec3Bits { x: x.to_bits(), y: y.to_bits(), z: z.to_bits() }
}

fn floats(b: &Bounds) -> ([f32; 3], [f32; 3]) {
    (
        [f32::from_bits(b.min.x), f32::from_bits(b.min.y), f32::from_bits(b.min.z)],
        [f32::from_bits(b.max.x), f32::from_bits(b.max.y), f32::from_bits(b.max.z)],
    )
}

/// Converts the raw component tokens of a parsed OBJ to float bit
/// patterns, the step that stands outside the verified core.
fn to_positions(g: &ObjGeometry) -> Vec<Vec3Bits> {
    g.vertices
        .iter()
        .map(|v| {
            let f = |t: &Vec<u8>| -> u32 {
                std::str::from_utf8(t).unwrap().parse::<f32>().unwrap().to_bits()
            };
            Vec3Bits { x: f(&v.x), y: f(&v.y), z: f(&v.z) }
        })
        .collect()
}

#[test]
fn bounds_of_a_right_triangle() {
    let vs = vec![bits(0.0, 0.0, 0.0), bits(2.0, 0.0, 0.0), bits(0.0, 2.0, 0.0)];
    let b = calculate_model_bounds(&vs);
    let (min, max) = floats(&b);
    assert_eq!(min, [0.0, 0.0, 0.0]);
    assert_eq!(max, [2.0, 2.0, 0.0]);
    // the derived transform parameters, computed as the consumer does
    let center = [(min[0] + max[0]) / 2.0, (min[1] + max[1]) / 2.0, (min[2] + max[2]) / 2.0];
    let max_dimension = (max[0] - min[0]).max(max[1] - min[1]).max(max[2] - min[2]);
    assert_eq!(center, [1.0, 1.0, 0.0]);
    assert_eq!(max_dimension, 2.0);
}

#[test]
fn bounds_with_negative_components() {
    let vs = vec![bits(-1.5, 3.0, -0.25), bits(1.0, -2.0, 4.0)];
    let b = calculate_model_bounds(&vs);
    let (min, max) = floats(&b);
    assert_eq!(min, [-1.5, -2.0, -0.25]);
    assert_eq!(max, [1.0, 3.0, 4.0]);
}

#[test]
fn bounds_of_nothing_are_the_fold_bases() {
    let b = calculate_model_bounds(&Vec::new());
    assert_eq!(b.min.x, f32::MAX.to_bits());
    assert_eq!(b.max.x, f32::MIN.to_bits());
}

#[test]
fn bounds_ignore_nan_components() {
    let vs = vec![bits(f32::NAN, 1.0, 0.0), bits(2.0, f32::NAN, 0.0)];
    let b = calculate_model_bounds(&vs);
    let (min, max) = floats(&b);
    assert_eq!(min[0], 2.0);
    assert_eq!(max[1], 1.0);
}

#[test]
fn bounds_order_zeros_as_equal() {
    let vs = vec![bits(-0.0, 0.0, 0.0), bits(0.0, -0.0, 0.0)];
    let b = calculate_model_bounds(&vs);
    let (min, max) = floats(&b);
    assert_eq!(min[0], 0.0);
    assert_eq!(max[0], 0.0);
}

#[test]
fn normalizing_fits_the_two_unit_cube() {
    // parse, compute bounds, then apply scale = 2 / max_dimension and
    // subtract the center: the box must sit at the origin with its
    // largest extent exactly 2
    let text = b"v 0 0 0\nv 4 2 2\nv 2 1 1\nf 1 2 3\n";
    let g = parse_obj(&text.to_vec()).unwrap();
    let vs = to_positions(&g);
    let b = calculate_model_bounds(&vs);
    let (min, max) = floats(&b);
    let center = [(min[0] + max[0]) / 2.0, (min[1] + max[1]) / 2.0, (min[2] + max[2]) / 2.0];
    let max_dimension = (max[0] - min[0]).max(max[1] - min[1]).max(max[2] - min[2]);
    let scale = 2.0f32 / max_dimension;
    let transformed: Vec<Vec3Bits> = vs
        .iter()
        .map(|v| {
            bits(
                (f32::from_bits(v.x) - center[0]) * scale,
                (f32::from_bits(v.y) - center[1]) * scale,
                (f32::from_bits(v.z) - center[2]) * scale,
            )
        })
        .collect();
    let tb = calculate_model_bounds(&transformed);
    let (tmin, tmax) = floats(&tb);
    for a in 0..3 {
        assert_eq!(tmin[a] + tmax[a], 0.0);
    }
    let extent = (tmax[0] - tmin[0]).max(tmax[1] - tmin[1]).max(tmax[2] - tmin[2]);
    assert_eq!(extent, 2.0);
}

#[test]
fn dispatch_is_case_insensitive() {
    assert_eq!(detect_format(&b"model.OBJ".to_vec()).unwrap(), Format::Obj);
    assert_eq!(detect_format(&b"model.obj".to_vec()).unwrap(), Format::Obj);
    assert_eq!(detect_format(&b"scene.GlTf".to_vec()).unwrap(), Format::Gltf);
}

#[test]
fn dispatch_rejects_other_suffixes() {
    assert_eq!(detect_format(&b"model.glb".to_vec()).err().unwrap(), MeshError::UnsupportedFormat);
    assert_eq!(detect_format(&b"model".to_vec()).err().unwrap(), MeshError::UnsupportedFormat);
    assert_eq!(detect_format(&b"obj".to_vec()).err().unwrap(), MeshError::UnsupportedFormat);
    let e = detect_format(&b"x.stl".to_vec()).err().unwrap();
    assert!(e.message().contains("unsupported file format"));
}
