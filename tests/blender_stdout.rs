use blender_mesh::blender_stdout::{find_first_mesh_after_index, FramingError};

#[test]
fn no_mesh_in_output() {
    assert_eq!(find_first_mesh_after_index(b"Blender 2.79\nall done\n", 0), Ok(None));
    assert_eq!(find_first_mesh_after_index(b"", 0), Ok(None));
}

#[test]
fn frames_one_mesh() {
    let out = "Read blend\nSTART_MESH_JSON /path/to/file.blend my_mesh\n{\"a\":\r\n 1}\nEND_MESH_JSON /path/to/file.blend my_mesh\n";
    let block = find_first_mesh_after_index(out.as_bytes(), 0).unwrap().unwrap();
    assert_eq!(block.filename, b"/path/to/file.blend".to_vec());
    assert_eq!(block.mesh_name, b"my_mesh".to_vec());
    assert_eq!(block.json, b"{\"a\": 1}".to_vec());
    let end = out.find("END_MESH_JSON").unwrap();
    assert_eq!(block.next_index, end + 1);
    assert_eq!(find_first_mesh_after_index(out.as_bytes(), block.next_index), Ok(None));
}

#[test]
fn frames_meshes_one_after_another() {
    let out = "START_MESH_JSON f.blend a\n1\nEND_MESH_JSON f.blend a\nSTART_MESH_JSON g.blend b\n2\nEND_MESH_JSON g.blend b\n";
    let first = find_first_mesh_after_index(out.as_bytes(), 0).unwrap().unwrap();
    assert_eq!(first.mesh_name, b"a".to_vec());
    let second = find_first_mesh_after_index(out.as_bytes(), first.next_index)
        .unwrap()
        .unwrap();
    assert_eq!(second.filename, b"g.blend".to_vec());
    assert_eq!(second.mesh_name, b"b".to_vec());
    assert_eq!(second.json, b"2".to_vec());
}

#[test]
fn framing_errors() {
    assert_eq!(
        find_first_mesh_after_index(b"START_MESH_JSON f.blend a\n{}\n", 0),
        Err(FramingError::MissingEnd)
    );
    assert_eq!(
        find_first_mesh_after_index(b"END_MESH_JSON\nSTART_MESH_JSON f.blend a\n", 0),
        Err(FramingError::EndBeforeStart)
    );
    assert_eq!(
        find_first_mesh_after_index(b"START_MESH_JSON\n{}\nEND_MESH_JSON\n", 0),
        Err(FramingError::MissingFilename)
    );
}
