use lsdblox::geometry::{narrow_indices, vertex_attributes_exact, vertex_attributes_padded};

#[test]
fn padded_vertices_take_groups_where_present() {
    let positions = [1.0f32, 2.0, 3.0, 4.0, 5.0, 6.0];
    let texcoords = [0.25f32, 0.75];
    let normals: [f32; 0] = [];
    let v = vertex_attributes_padded(&positions, &texcoords, &normals);
    assert_eq!(v.len(), 2);
    assert_eq!(v[0].position, (1.0, 2.0, 3.0));
    assert_eq!(v[1].position, (4.0, 5.0, 6.0));
    assert_eq!(v[0].uv, Some((0.25, 0.75)));
    assert_eq!(v[1].uv, None);
    assert_eq!(v[0].normal, None);
    assert_eq!(v[1].normal, None);
}

#[test]
fn padded_vertices_ignore_extra_groups() {
    let positions = [1u8, 2, 3];
    let texcoords = [7u8, 8, 9, 10];
    let normals = [4u8, 5, 6, 7, 8, 9];
    let v = vertex_attributes_padded(&positions, &texcoords, &normals);
    assert_eq!(v.len(), 1);
    assert_eq!(v[0].uv, Some((7, 8)));
    assert_eq!(v[0].normal, Some((4, 5, 6)));
}

#[test]
fn exact_vertices() {
    let positions = [0i32, 1, 2, 10, 11, 12];
    let texcoords = [5i32, 6, 15, 16];
    let normals = [-1i32, -2, -3, -4, -5, -6];
    let v = vertex_attributes_exact(&positions, &texcoords, &normals);
    assert_eq!(v.len(), 2);
    assert_eq!(v[1].position, (10, 11, 12));
    assert_eq!(v[1].uv, Some((15, 16)));
    assert_eq!(v[1].normal, Some((-4, -5, -6)));
}

#[test]
fn empty_model_has_no_vertices() {
    let e: [f32; 0] = [];
    assert!(vertex_attributes_padded(&e, &e, &e).is_empty());
    assert!(vertex_attributes_exact(&e, &e, &e).is_empty());
}

#[test]
fn indices_keep_low_sixteen_bits() {
    assert_eq!(
        narrow_indices(&[0, 1, 65535, 65536, 70000, u32::MAX]),
        vec![0u16, 1, 65535, 0, 4464, 65535]
    );
    assert!(narrow_indices(&[]).is_empty());
}
