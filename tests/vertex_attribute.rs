use blender_mesh::vertex_attribute::VertexAttribute;

#[test]
fn attribute_holds_whole_entries() {
    let attr = VertexAttribute::new(vec![0u32, 10, 2, 65, 4, 5], 3).unwrap();
    assert_eq!(attr.attribute_size(), 3);
    assert_eq!(attr.as_slice(), &[0, 10, 2, 65, 4, 5]);
    assert_eq!(attr.data(), &vec![0, 10, 2, 65, 4, 5]);
    assert_eq!(attr.data_at_idx(1), &[65, 4, 5]);
    assert_eq!(attr.data_at_idx(0), &[0, 10, 2]);
    assert_eq!(attr.len(), 6);
    assert_eq!(attr[3], 65);
}

#[test]
fn attribute_refuses_partial_entries() {
    assert!(VertexAttribute::new(vec![1u8, 2, 3, 4], 3).is_err());
    assert!(VertexAttribute::new(vec![1u8, 2], 0).is_err());
    assert!(VertexAttribute::<u8>::new(vec![], 2).is_ok());
}
