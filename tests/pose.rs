use blender_mesh::float_bits::{less_than, negate};
use blender_mesh::pose::{pair_bones, shortest_path_end, BlendError, Bone, BonePair};

fn quat(values: [f32; 8]) -> [u32; 8] {
    let mut out = [0u32; 8];
    for (o, v) in out.iter_mut().zip(values.iter()) {
        *o = v.to_bits();
    }
    out
}

fn floats(values: [u32; 8]) -> [f32; 8] {
    let mut out = [0f32; 8];
    for (o, v) in out.iter_mut().zip(values.iter()) {
        *o = f32::from_bits(*v);
    }
    out
}

fn dot(a: [f32; 8], b: [f32; 8]) -> f32 {
    a[0] * b[0] + a[1] * b[1] + a[2] * b[2] + a[3] * b[3]
}

fn lerp(a: [f32; 8], b: [f32; 8], t: f32) -> [f32; 8] {
    let mut out = [0f32; 8];
    for k in 0..8 {
        out[k] = (b[k] - a[k]) * t + a[k];
    }
    out
}

#[test]
fn pairs_bones_by_position() {
    let a = quat([1.0, 0.0, 0.0, 0.0, 0.0, 0.0, 0.0, 0.0]);
    let b = quat([0.0, 1.0, 0.0, 0.0, 1.0, 2.0, 3.0, 4.0]);
    let start = vec![(0u8, Bone::DualQuat(a)), (3u8, Bone::DualQuat(b))];
    let end = vec![(0u8, Bone::DualQuat(b)), (3u8, Bone::DualQuat(a))];
    let pairs = pair_bones(&start, &end).unwrap();
    assert_eq!(
        pairs,
        vec![
            BonePair { joint: 0, start: a, end: b },
            BonePair { joint: 3, start: b, end: a },
        ]
    );
}

#[test]
fn poses_with_different_joint_counts_are_refused() {
    let a = quat([1.0, 0.0, 0.0, 0.0, 0.0, 0.0, 0.0, 0.0]);
    let start = vec![(1u8, Bone::DualQuat(a)), (2u8, Bone::DualQuat(a))];
    let end = vec![(1u8, Bone::DualQuat(a))];
    assert_eq!(
        pair_bones(&start, &end),
        Err(BlendError::JointCountMismatch { start_count: 2, end_count: 1 })
    );
    assert_eq!(
        pair_bones(&end, &start),
        Err(BlendError::JointCountMismatch { start_count: 1, end_count: 2 })
    );
    assert_eq!(pair_bones(&Vec::new(), &Vec::new()), Ok(Vec::new()));
}

#[test]
fn mismatched_joints_are_refused() {
    let a = quat([1.0, 0.0, 0.0, 0.0, 0.0, 0.0, 0.0, 0.0]);
    let start = vec![(1u8, Bone::DualQuat(a)), (2u8, Bone::DualQuat(a))];
    let end = vec![(1u8, Bone::DualQuat(a)), (5u8, Bone::Matrix([0u32; 16]))];
    assert_eq!(
        pair_bones(&start, &end),
        Err(BlendError::JointMismatch { position: 1, start_joint: 2, end_joint: 5 })
    );
}

#[test]
fn matrix_bones_are_refused() {
    let a = quat([1.0, 0.0, 0.0, 0.0, 0.0, 0.0, 0.0, 0.0]);
    let start = vec![(4u8, Bone::Matrix([0u32; 16]))];
    let end = vec![(4u8, Bone::DualQuat(a))];
    assert_eq!(
        pair_bones(&start, &end),
        Err(BlendError::UnsupportedBone { joint: 4 })
    );
    let start = vec![(4u8, Bone::DualQuat(a))];
    let end = vec![(4u8, Bone::Matrix([0u32; 16]))];
    assert_eq!(
        pair_bones(&start, &end),
        Err(BlendError::UnsupportedBone { joint: 4 })
    );
}

#[test]
fn negative_dot_product_negates_the_end() {
    let start = [1.0, 0.0, 0.0, 0.0, 0.5, 0.0, 0.0, 0.0];
    let end = [-0.8, 0.6, 0.0, 0.0, 0.0, 1.0, -2.0, 0.0];
    let d = dot(start, end);
    assert!(d < 0.0);
    let oriented = floats(shortest_path_end(quat(end), d.to_bits()));
    assert_eq!(oriented, [0.8, -0.6, -0.0, -0.0, -0.0, -1.0, 2.0, -0.0]);
    let blended = lerp(start, oriented, 0.5);
    assert_eq!(blended, [0.9, -0.3, 0.0, 0.0, 0.25, -0.5, 1.0, 0.0]);
    assert_ne!(blended, lerp(start, end, 0.5));
}

#[test]
fn non_negative_dot_product_keeps_the_end() {
    let end = quat([0.0, 1.0, 0.0, 0.0, 1.0, 1.0, 1.0, 1.0]);
    assert_eq!(shortest_path_end(end, 0.0f32.to_bits()), end);
    assert_eq!(shortest_path_end(end, (-0.0f32).to_bits()), end);
    assert_eq!(shortest_path_end(end, 0.25f32.to_bits()), end);
    assert_eq!(shortest_path_end(end, f32::NAN.to_bits()), end);
}

#[test]
fn blend_endpoints_are_exact() {
    let start = [0.0, 1.0, 0.0, 0.0, 0.5, 0.25, 0.0, 0.0];
    let end = [0.0, 0.0, 1.0, 0.0, 0.0, 0.0, 3.0, 0.0];
    let oriented = floats(shortest_path_end(quat(end), dot(start, end).to_bits()));
    assert_eq!(lerp(start, oriented, 0.0), start);
    assert_eq!(lerp(start, oriented, 1.0), end);
}

#[test]
fn float_bit_helpers() {
    assert_eq!(negate(1.5f32.to_bits()), (-1.5f32).to_bits());
    assert_eq!(negate((-0.0f32).to_bits()), 0.0f32.to_bits());
    assert!(less_than((-1.0f32).to_bits(), 0.5f32.to_bits()));
    assert!(less_than((-3.0f32).to_bits(), (-1.0f32).to_bits()));
    assert!(!less_than((-0.0f32).to_bits(), 0.0f32.to_bits()));
    assert!(less_than(0.25f32.to_bits(), 0.5f32.to_bits()));
}
