use blender_mesh::mesh::BlenderMesh;

fn bits(values: &[f32]) -> Vec<u32> {
    values.iter().map(|f| f.to_bits()).collect()
}

fn floats(values: &[u32]) -> Vec<f32> {
    values.iter().map(|b| f32::from_bits(*b)).collect()
}

// Three equal values, a fake vertex: v(2) -> [2.0, 2.0, 2.0]
fn v(val: u8) -> Vec<f32> {
    vec![val as f32, val as f32, val as f32]
}

fn v2(val: u8) -> Vec<f32> {
    vec![val as f32, val as f32]
}

fn concat(parts: &[Vec<f32>]) -> Vec<f32> {
    let mut all = Vec::new();
    for p in parts {
        all.extend_from_slice(p);
    }
    all
}

fn v3_x4(a: u8, b: u8, c: u8, d: u8) -> Vec<f32> {
    concat(&[v(a), v(b), v(c), v(d)])
}

fn v2_x4(a: u8, b: u8, c: u8, d: u8) -> Vec<f32> {
    concat(&[v2(a), v2(b), v2(c), v2(d)])
}

fn make_mesh_to_combine_without_uvs() -> BlenderMesh {
    BlenderMesh {
        vertex_positions: bits(&concat(&[v(0), v(1), v(2), v(3)])),
        vertex_position_indices: vec![0, 1, 2, 3, 0, 1, 2, 3, 0, 1, 2, 3],
        num_vertices_in_each_face: vec![4, 4, 4],
        vertex_normals: bits(&concat(&[v(4), v(5), v(6)])),
        vertex_normal_indices: Some(vec![0, 1, 0, 1, 2, 2, 2, 2, 2, 2, 2, 2]),
        num_groups_for_each_vertex: Some(vec![3, 2, 5, 1]),
        vertex_group_indices: Some(vec![0, 1, 2, 0, 3, 4, 5, 6, 7, 8, 11]),
        vertex_group_weights: Some(bits(&[
            0.05, 0.8, 0.15, 0.5, 0.5, 0.1, 0.2, 0.2, 0.2, 0.3, 0.999,
        ])),
        ..BlenderMesh::default()
    }
}

fn make_expected_combined_mesh() -> BlenderMesh {
    BlenderMesh {
        vertex_positions: bits(&concat(&[v(0), v(1), v(2), v(3), v(0), v(1), v(2), v(3)])),
        vertex_position_indices: vec![0, 1, 2, 3, 4, 5, 6, 7, 4, 5, 6, 7],
        num_vertices_in_each_face: vec![4, 4, 4],
        vertex_normals: bits(&concat(&[v(4), v(5), v(4), v(5), v(6), v(6), v(6), v(6)])),
        num_groups_for_each_vertex: Some(vec![3, 2, 5, 1, 3, 2, 5, 1]),
        vertex_group_indices: Some(vec![
            0, 1, 2, 0, 3, 4, 5, 6, 7, 8, 11, 0, 1, 2, 0, 3, 4, 5, 6, 7, 8, 11,
        ]),
        vertex_group_weights: Some(bits(&[
            0.05, 0.8, 0.15, 0.5, 0.5, 0.1, 0.2, 0.2, 0.2, 0.3, 0.999, 0.05, 0.8, 0.15, 0.5, 0.5,
            0.1, 0.2, 0.2, 0.2, 0.3, 0.999,
        ])),
        ..BlenderMesh::default()
    }
}

#[test]
fn combine_pos_norm_indices() {
    let mut mesh = make_mesh_to_combine_without_uvs();
    mesh.combine_vertex_indices();
    assert_eq!(mesh, make_expected_combined_mesh());
}

#[test]
fn combine_pos_norm_uv_indices() {
    // The first three quads repeat no vertex across positions, normals and uvs; the
    // fourth repeats the third.
    let mut mesh = BlenderMesh {
        vertex_positions: bits(&concat(&[v(0), v(1), v(2), v(3)])),
        vertex_normals: bits(&concat(&[v(4), v(5), v(6)])),
        num_vertices_in_each_face: vec![4, 4, 4, 4],
        vertex_position_indices: vec![0, 1, 2, 3, 0, 1, 2, 3, 0, 1, 2, 3, 0, 1, 2, 3],
        vertex_normal_indices: Some(vec![0, 1, 0, 1, 2, 2, 2, 2, 2, 2, 2, 2, 2, 2, 2, 2]),
        vertex_uvs: Some(bits(&concat(&[v2(7), v2(8), v2(9), v2(10)]))),
        vertex_uv_indices: Some(vec![0, 1, 0, 1, 2, 2, 2, 2, 3, 3, 3, 3, 3, 3, 3, 3]),
        num_groups_for_each_vertex: None,
        vertex_group_indices: None,
        vertex_group_weights: None,
        ..BlenderMesh::default()
    };

    let expected = BlenderMesh {
        vertex_positions: bits(&concat(&[
            v3_x4(0, 1, 2, 3),
            v3_x4(0, 1, 2, 3),
            v3_x4(0, 1, 2, 3),
        ])),
        vertex_position_indices: vec![0, 1, 2, 3, 4, 5, 6, 7, 8, 9, 10, 11, 8, 9, 10, 11],
        num_vertices_in_each_face: vec![4, 4, 4, 4],
        vertex_normals: bits(&concat(&[
            v3_x4(4, 5, 4, 5),
            v3_x4(6, 6, 6, 6),
            v3_x4(6, 6, 6, 6),
        ])),
        vertex_uvs: Some(bits(&concat(&[
            v2_x4(7, 8, 7, 8),
            v2_x4(9, 9, 9, 9),
            v2_x4(10, 10, 10, 10),
        ]))),
        ..BlenderMesh::default()
    };

    mesh.combine_vertex_indices();
    assert_eq!(mesh, expected);
}

#[test]
fn triangulate_faces() {
    let mut start_mesh = BlenderMesh {
        vertex_position_indices: vec![0, 1, 2, 3, 4, 5, 6, 7],
        num_vertices_in_each_face: vec![4, 4],
        ..BlenderMesh::default()
    };

    start_mesh.triangulate();

    let expected_mesh = BlenderMesh {
        vertex_position_indices: vec![0, 1, 2, 0, 2, 3, 4, 5, 6, 4, 6, 7],
        num_vertices_in_each_face: vec![3, 3, 3, 3],
        ..BlenderMesh::default()
    };

    assert_eq!(start_mesh, expected_mesh);
}

#[test]
fn z_up_to_y_up() {
    let mut start_mesh = BlenderMesh {
        vertex_positions: bits(&[0.0, 1.0, 2.0, 0.0, 1.0, 2.0]),
        vertex_normals: bits(&[0.0, 1.0, 2.0, 0.0, 1.0, 2.0]),
        ..BlenderMesh::default()
    };

    start_mesh.y_up();

    let expected_mesh = BlenderMesh {
        vertex_positions: bits(&[0.0, 2.0, -1.0, 0.0, 2.0, -1.0]),
        vertex_normals: bits(&[0.0, 2.0, -1.0, 0.0, 2.0, -1.0]),
        ..BlenderMesh::default()
    };

    assert_eq!(start_mesh, expected_mesh);
}

#[test]
fn set_joints_per_vert() {
    let mut start_mesh = BlenderMesh {
        vertex_group_indices: Some(vec![0, 2, 3, 4, 0, 1, 3, 2]),
        num_groups_for_each_vertex: Some(vec![1, 3, 4]),
        vertex_group_weights: Some(bits(&[1.0, 0.5, 0.2, 0.3, 0.6, 0.15, 0.1, 0.15])),
        ..BlenderMesh::default()
    };

    start_mesh.set_groups_per_vertex(3);

    let expected_mesh = BlenderMesh {
        vertex_group_indices: Some(vec![0, 0, 0, 2, 4, 3, 0, 1, 2]),
        num_groups_for_each_vertex: Some(vec![3, 3, 3]),
        vertex_group_weights: Some(bits(&[1.0, 0.0, 0.0, 0.5, 0.3, 0.2, 0.6, 0.15, 0.15])),
        ..BlenderMesh::default()
    };

    assert_eq!(start_mesh, expected_mesh);
}

#[test]
fn triangles_are_kept_and_quads_split() {
    let mut mesh = BlenderMesh {
        vertex_position_indices: vec![9, 8, 7, 0, 1, 2, 3, 5, 6, 4],
        num_vertices_in_each_face: vec![3, 4, 3],
        ..BlenderMesh::default()
    };
    mesh.triangulate();
    assert_eq!(
        mesh.vertex_position_indices,
        vec![9, 8, 7, 0, 1, 2, 0, 2, 3, 5, 6, 4]
    );
    assert_eq!(mesh.num_vertices_in_each_face, vec![3, 3, 3, 3]);
}

#[test]
fn triangulate_empty_mesh() {
    let mut mesh = BlenderMesh::default();
    mesh.triangulate();
    assert_eq!(mesh, BlenderMesh::default());
}

#[test]
fn y_up_twice_negates_y_and_z() {
    let mut mesh = BlenderMesh {
        vertex_positions: bits(&[0.0, 1.0, 2.0]),
        vertex_normals: bits(&[3.0, -4.0, 5.0]),
        ..BlenderMesh::default()
    };
    mesh.y_up();
    assert_eq!(floats(&mesh.vertex_positions), vec![0.0, 2.0, -1.0]);
    mesh.y_up();
    assert_eq!(floats(&mesh.vertex_positions), vec![0.0, -1.0, -2.0]);
    assert_eq!(floats(&mesh.vertex_normals), vec![3.0, 4.0, -5.0]);
    mesh.y_up();
    mesh.y_up();
    assert_eq!(floats(&mesh.vertex_positions), vec![0.0, 1.0, 2.0]);
    assert_eq!(floats(&mesh.vertex_normals), vec![3.0, -4.0, 5.0]);
}

#[test]
fn y_up_leaves_trailing_values() {
    let mut mesh = BlenderMesh {
        vertex_positions: bits(&[0.0, 1.0, 2.0, 7.0]),
        vertex_normals: bits(&[0.0, 1.0, 2.0, 8.0, 9.0]),
        ..BlenderMesh::default()
    };
    mesh.y_up();
    assert_eq!(floats(&mesh.vertex_positions), vec![0.0, 2.0, -1.0, 7.0]);
    assert_eq!(floats(&mesh.vertex_normals), vec![0.0, 2.0, -1.0, 8.0, 9.0]);
}

#[test]
fn groups_are_padded_and_truncated() {
    let mut mesh = BlenderMesh {
        vertex_group_indices: Some(vec![5, 1, 2, 3]),
        num_groups_for_each_vertex: Some(vec![0, 1, 3]),
        vertex_group_weights: Some(bits(&[0.7, 0.1, 0.9, 0.4])),
        ..BlenderMesh::default()
    };
    mesh.set_groups_per_vertex(2);
    assert_eq!(mesh.num_groups_for_each_vertex, Some(vec![2, 2, 2]));
    assert_eq!(mesh.vertex_group_indices, Some(vec![0, 0, 5, 0, 2, 3]));
    assert_eq!(
        mesh.vertex_group_weights,
        Some(bits(&[0.0, 0.0, 0.7, 0.0, 0.9, 0.4]))
    );
}

#[test]
fn groups_rank_negative_and_zero_weights() {
    let mut mesh = BlenderMesh {
        vertex_group_indices: Some(vec![1, 2, 3, 4]),
        num_groups_for_each_vertex: Some(vec![4]),
        vertex_group_weights: Some(bits(&[-0.5, -0.0, 0.0, -2.0])),
        ..BlenderMesh::default()
    };
    mesh.set_groups_per_vertex(4);
    // -0.0 and 0.0 weigh the same and keep their order
    assert_eq!(mesh.vertex_group_indices, Some(vec![2, 3, 1, 4]));
}

#[test]
fn unify_positions_only() {
    let mut mesh = BlenderMesh {
        vertex_positions: bits(&[1.0, 1.0, 1.0, 2.0, 2.0, 2.0, 3.0, 3.0, 3.0]),
        vertex_position_indices: vec![2, 0, 2, 1, 0],
        num_vertices_in_each_face: vec![5],
        ..BlenderMesh::default()
    };
    mesh.combine_vertex_indices();
    assert_eq!(mesh.vertex_position_indices, vec![0, 1, 0, 2, 1]);
    assert_eq!(
        floats(&mesh.vertex_positions),
        vec![3.0, 3.0, 3.0, 1.0, 1.0, 1.0, 2.0, 2.0, 2.0]
    );
    assert!(mesh.vertex_normals.is_empty());
    assert_eq!(mesh.vertex_uvs, None);
}

#[test]
fn unify_is_deterministic() {
    let mut a = make_mesh_to_combine_without_uvs();
    let mut b = make_mesh_to_combine_without_uvs();
    a.combine_vertex_indices();
    b.combine_vertex_indices();
    assert_eq!(a, b);
}
