use perimeter_slicer::mesh::{Edge, Point, SliceMesh, Triangle, Vertex};

fn v(x: f32, y: f32, z: f32) -> Vertex {
    Vertex { x: x.to_bits(), y: y.to_bits(), z: z.to_bits() }
}

fn p(x: f32, y: f32) -> Point {
    Point { x: x.to_bits(), y: y.to_bits() }
}

fn tri(a: usize, b: usize, c: usize) -> Triangle {
    Triangle { a, b, c }
}

#[test]
fn vertex_knows_its_plane_and_its_footprint() {
    let on = v(3.0, 4.0, 0.0);
    let off = v(3.0, 4.0, 0.5);
    assert!(on.is_on_plane());
    assert!(!off.is_on_plane());
    assert_eq!(on.to_point(), p(3.0, 4.0));
    assert_eq!(off.to_point(), p(3.0, 4.0));
}

#[test]
fn mesh_with_indices_in_range_is_well_formed() {
    let mesh = SliceMesh::new(vec![v(0., 0., 0.), v(1., 0., 0.), v(0., 1., 1.)], vec![tri(0, 1, 2)]);
    assert!(mesh.is_well_formed());
    assert!(SliceMesh::new(vec![], vec![]).is_well_formed());
}

#[test]
fn mesh_with_an_index_out_of_range_is_not_well_formed() {
    let vertices = vec![v(0., 0., 0.), v(1., 0., 0.), v(0., 1., 1.)];
    assert!(!SliceMesh::new(vertices.clone(), vec![tri(3, 1, 2)]).is_well_formed());
    assert!(!SliceMesh::new(vertices.clone(), vec![tri(0, 3, 2)]).is_well_formed());
    assert!(!SliceMesh::new(vertices.clone(), vec![tri(0, 1, 2), tri(0, 1, 3)]).is_well_formed());
    assert!(!SliceMesh::new(vec![], vec![tri(0, 0, 0)]).is_well_formed());
}

#[test]
fn the_side_on_the_plane_keeps_the_winding_of_its_triangle() {
    let vertices = vec![v(0., 0., 0.), v(1., 0., 0.), v(0., 1., 1.)];
    // corners a and b on the plane: side a -> b
    let mesh = SliceMesh::new(vertices.clone(), vec![tri(0, 1, 2)]);
    assert_eq!(mesh.collect_plane_edges(), vec![Edge { from: p(0., 0.), to: p(1., 0.) }]);
    // corners b and c on the plane: side b -> c
    let mesh = SliceMesh::new(vertices.clone(), vec![tri(2, 0, 1)]);
    assert_eq!(mesh.collect_plane_edges(), vec![Edge { from: p(0., 0.), to: p(1., 0.) }]);
    // corners c and a on the plane: side c -> a
    let mesh = SliceMesh::new(vertices.clone(), vec![tri(1, 2, 0)]);
    assert_eq!(mesh.collect_plane_edges(), vec![Edge { from: p(0., 0.), to: p(1., 0.) }]);
    // the other winding turns the edge round
    let mesh = SliceMesh::new(vertices, vec![tri(1, 0, 2)]);
    assert_eq!(mesh.collect_plane_edges(), vec![Edge { from: p(1., 0.), to: p(0., 0.) }]);
}

#[test]
fn only_triangles_with_exactly_two_corners_on_the_plane_count() {
    let vertices = vec![v(0., 0., 0.), v(1., 0., 0.), v(0., 1., 0.), v(0., 0., 1.), v(1., 1., 1.)];
    // three corners on the plane
    assert!(SliceMesh::new(vertices.clone(), vec![tri(0, 1, 2)]).collect_plane_edges().is_empty());
    // one corner on the plane
    assert!(SliceMesh::new(vertices.clone(), vec![tri(0, 3, 4)]).collect_plane_edges().is_empty());
    // none
    assert!(SliceMesh::new(vertices.clone(), vec![tri(3, 4, 3)]).collect_plane_edges().is_empty());
    // a mesh without triangles
    assert!(SliceMesh::new(vertices, vec![]).collect_plane_edges().is_empty());
}

#[test]
fn edges_come_in_the_order_of_the_triangles() {
    let vertices = vec![v(0., 0., 0.), v(1., 0., 0.), v(1., 1., 0.), v(5., 5., 1.)];
    let mesh = SliceMesh::new(vertices, vec![tri(1, 2, 3), tri(0, 1, 2), tri(0, 1, 3), tri(3, 2, 0)]);
    assert_eq!(
        mesh.collect_plane_edges(),
        vec![
            Edge { from: p(1., 0.), to: p(1., 1.) },
            Edge { from: p(0., 0.), to: p(1., 0.) },
            Edge { from: p(1., 1.), to: p(0., 0.) },
        ]
    );
}

#[test]
fn heights_within_the_tolerance_count_as_on_the_plane() {
    let vertices = vec![v(0., 0., 9e-9), v(1., 0., -9e-9), v(0., 1., 2e-8)];
    let mesh = SliceMesh::new(vertices, vec![tri(0, 1, 2)]);
    assert_eq!(mesh.collect_plane_edges(), vec![Edge { from: p(0., 0.), to: p(1., 0.) }]);
}

#[test]
fn a_triangle_that_names_a_plane_vertex_twice_leaves_a_loop_on_it() {
    let vertices = vec![v(2., 3., 0.), v(0., 0., 1.)];
    let mesh = SliceMesh::new(vertices, vec![tri(0, 0, 1)]);
    assert_eq!(mesh.collect_plane_edges(), vec![Edge { from: p(2., 3.), to: p(2., 3.) }]);
}
