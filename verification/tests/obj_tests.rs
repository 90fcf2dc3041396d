use wgpu_project::obj::gather_obj_vertices;

#[test]
fn gathers_positions_colors_and_texcoords() {
    let positions = vec![1, 2, 3, 4, 5, 6];
    let colors = vec![10, 11, 12, 13, 14, 15];
    let texcoords = vec![20, 21, 22, 23];
    let v = gather_obj_vertices(&positions, &colors, &texcoords);
    assert_eq!(v.len(), 2);
    assert_eq!(v[0].position, [1, 2, 3]);
    assert_eq!(v[1].position, [4, 5, 6]);
    assert_eq!(v[0].color, Some([10, 11, 12]));
    assert_eq!(v[1].color, Some([13, 14, 15]));
    assert_eq!(v[0].tex_coords, Some([20, 21]));
    assert_eq!(v[1].tex_coords, Some([22, 23]));
}

#[test]
fn missing_attributes_are_none() {
    let positions = vec![1, 2, 3, 4, 5, 6, 7];
    let v = gather_obj_vertices(&positions, &Vec::new(), &Vec::new());
    assert_eq!(v.len(), 2);
    assert_eq!(v[1].position, [4, 5, 6]);
    assert_eq!(v[0].color, None);
    assert_eq!(v[1].tex_coords, None);
}

#[test]
fn no_positions_no_vertices() {
    let v = gather_obj_vertices(&vec![1u8, 2], &Vec::new(), &Vec::new());
    assert!(v.is_empty());
}
