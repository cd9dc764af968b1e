use perimeter_slicer::contour::{extract_contours, trace_contours};
use perimeter_slicer::mesh::{Edge, Point, SliceMesh, Triangle, Vertex};
use perimeter_slicer::path::{Bead, ExtrusionPath};

fn pt(x: f32, y: f32) -> Point {
    Point { x: x.to_bits(), y: y.to_bits() }
}

fn edge(from: Point, to: Point) -> Edge {
    Edge { from, to }
}

fn v(x: f32, y: f32, z: f32) -> Vertex {
    Vertex { x: x.to_bits(), y: y.to_bits(), z: z.to_bits() }
}

fn bead() -> Bead {
    Bead {
        width: 0.42f64.to_bits(),
        height: 0.2f64.to_bits(),
        z_height: 0.4f64.to_bits(),
        filament_area: 2.4f64.to_bits(),
    }
}

fn lines(paths: &[ExtrusionPath]) -> Vec<Vec<Point>> {
    paths.iter().map(|path| path.points.clone()).collect()
}

/// A unit square on the plane, each side the base of one triangle whose
/// third corner lies above the plane.
fn square_mesh() -> SliceMesh {
    SliceMesh::new(
        vec![v(0., 0., 0.), v(1., 0., 0.), v(1., 1., 0.), v(0., 1., 0.), v(0.5, 0.5, 1.)],
        vec![
            Triangle { a: 0, b: 1, c: 4 },
            Triangle { a: 1, b: 2, c: 4 },
            Triangle { a: 2, b: 3, c: 4 },
            Triangle { a: 3, b: 0, c: 4 },
        ],
    )
}

#[test]
fn one_closed_loop_of_four_edges_gives_one_closed_path() {
    let (a, b, c, d) = (pt(0., 0.), pt(1., 0.), pt(1., 1.), pt(0., 1.));
    let paths = extract_contours(&square_mesh(), bead());
    assert_eq!(paths.len(), 1);
    assert_eq!(paths[0].points, vec![a, b, c, d, a]);
    assert_eq!(paths[0].first_point_in_path(), paths[0].last_point_in_path());
    assert_eq!(paths[0].bead, bead());
}

#[test]
fn a_closed_loop_is_found_whatever_the_order_of_its_edges() {
    let (a, b, c, d) = (pt(0., 0.), pt(1., 0.), pt(1., 1.), pt(0., 1.));
    let edges = vec![edge(c, d), edge(a, b), edge(d, a), edge(b, c)];
    let paths = trace_contours(&edges, bead());
    assert_eq!(lines(&paths), vec![vec![c, d, a, b, c]]);
}

#[test]
fn no_plane_edges_give_no_paths() {
    let mesh = SliceMesh::new(
        vec![v(0., 0., 1.), v(1., 0., 1.), v(0., 1., 2.)],
        vec![Triangle { a: 0, b: 1, c: 2 }],
    );
    assert!(extract_contours(&mesh, bead()).is_empty());
    assert!(extract_contours(&SliceMesh::new(vec![], vec![]), bead()).is_empty());
    assert!(trace_contours(&vec![], bead()).is_empty());
}

#[test]
fn extraction_is_repeatable() {
    let mesh = square_mesh();
    let first = extract_contours(&mesh, bead());
    let second = extract_contours(&mesh, bead());
    assert_eq!(lines(&first), lines(&second));
    let edges = vec![
        edge(pt(0., 0.), pt(1., 0.)),
        edge(pt(5., 5.), pt(6., 5.)),
        edge(pt(1., 0.), pt(2., 0.)),
        edge(pt(9., 9.), pt(5., 5.)),
    ];
    assert_eq!(lines(&trace_contours(&edges, bead())), lines(&trace_contours(&edges, bead())));
}

#[test]
fn an_open_chain_gives_one_open_path() {
    let (a, b, c) = (pt(0., 0.), pt(1., 0.), pt(2., 0.));
    let paths = trace_contours(&vec![edge(a, b), edge(b, c)], bead());
    assert_eq!(lines(&paths), vec![vec![a, b, c]]);
}

#[test]
fn a_single_edge_gives_a_path_of_two_points() {
    let (a, b) = (pt(0., 0.), pt(1., 0.));
    assert_eq!(lines(&trace_contours(&vec![edge(a, b)], bead())), vec![vec![a, b]]);
}

#[test]
fn a_new_path_starts_at_the_first_entry_that_is_left() {
    // Taking the entry of `a` out moves the last entry, that of `e`, into
    // its place at the front.
    let (a, b, c, d, e, f) = (pt(0., 0.), pt(1., 0.), pt(2., 0.), pt(3., 0.), pt(4., 0.), pt(5., 0.));
    let paths = trace_contours(&vec![edge(a, b), edge(c, d), edge(e, f)], bead());
    assert_eq!(lines(&paths), vec![vec![a, b], vec![e, f], vec![c, d]]);
}

#[test]
fn two_loops_give_two_closed_paths() {
    let (a, b, c) = (pt(0., 0.), pt(1., 0.), pt(0., 1.));
    let (p, q, r) = (pt(5., 5.), pt(6., 5.), pt(5., 6.));
    let edges = vec![edge(a, b), edge(p, q), edge(b, c), edge(q, r), edge(c, a), edge(r, p)];
    let paths = trace_contours(&edges, bead());
    // The entries taken out for the first loop leave that of `r` at the
    // front of the table, so the second loop is entered at `r`.
    assert_eq!(lines(&paths), vec![vec![a, b, c, a], vec![r, p, q, r]]);
}

#[test]
fn a_later_edge_from_the_same_point_overwrites_the_earlier_one() {
    let (a, b, c) = (pt(0., 0.), pt(1., 0.), pt(2., 0.));
    let paths = trace_contours(&vec![edge(a, b), edge(a, c)], bead());
    assert_eq!(lines(&paths), vec![vec![a, c]]);
    // the overwritten entry keeps its place at the front of the table
    let d = pt(3., 0.);
    let paths = trace_contours(&vec![edge(a, b), edge(c, d), edge(a, c)], bead());
    assert_eq!(lines(&paths), vec![vec![a, c, d]]);
}

#[test]
fn a_chain_that_runs_into_itself_stops_there() {
    let (a, b, c) = (pt(0., 0.), pt(1., 0.), pt(2., 0.));
    let paths = trace_contours(&vec![edge(a, b), edge(b, c), edge(c, b)], bead());
    assert_eq!(lines(&paths), vec![vec![a, b, c, b]]);
}

#[test]
fn points_that_differ_in_one_bit_are_different_points() {
    let a = pt(0., 0.);
    let b = pt(1., 0.);
    let nearly_b = Point { x: 1f32.to_bits() + 1, y: 0f32.to_bits() };
    let c = pt(2., 0.);
    assert_eq!(f32::from_bits(nearly_b.x), 1.0 + f32::EPSILON);
    let paths = trace_contours(&vec![edge(a, b), edge(nearly_b, c)], bead());
    assert_eq!(lines(&paths), vec![vec![a, b], vec![nearly_b, c]]);
    // with the very same point the chain goes on
    let paths = trace_contours(&vec![edge(a, b), edge(b, c)], bead());
    assert_eq!(lines(&paths), vec![vec![a, b, c]]);
}

#[test]
fn zero_of_either_sign_makes_two_points() {
    let a = pt(1., 1.);
    let plus = pt(0., 0.);
    let minus = pt(-0., 0.);
    let c = pt(2., 2.);
    let paths = trace_contours(&vec![edge(a, plus), edge(minus, c)], bead());
    assert_eq!(lines(&paths), vec![vec![a, plus], vec![minus, c]]);
}

#[test]
fn every_edge_is_used_once_and_every_path_has_a_segment() {
    let points: Vec<Point> = (0..12).map(|i| pt(i as f32, (i * i % 7) as f32)).collect();
    let mut edges = Vec::new();
    for i in 0..12usize {
        edges.push(edge(points[(i * 5) % 12], points[(i * 7 + 3) % 12]));
    }
    let paths = trace_contours(&edges, bead());
    let mut segments = Vec::new();
    for path in &paths {
        assert!(path.points.len() >= 2);
        assert_eq!(path.bead, bead());
        for pair in path.points.windows(2) {
            segments.push(edge(pair[0], pair[1]));
        }
    }
    // the sources are pairwise different here, so the table holds every edge
    let key = |e: &Edge| (e.from.x, e.from.y, e.to.x, e.to.y);
    let mut want = edges.clone();
    want.sort_by_key(key);
    segments.sort_by_key(key);
    assert_eq!(segments, want);
}

#[test]
fn every_path_carries_the_bead_it_was_asked_with() {
    let other = Bead { width: 1, height: 2, z_height: 3, filament_area: 4 };
    let (a, b, c, d) = (pt(0., 0.), pt(1., 0.), pt(5., 5.), pt(6., 6.));
    let paths = trace_contours(&vec![edge(a, b), edge(c, d)], other);
    assert_eq!(paths.len(), 2);
    assert_eq!(paths[0].bead, other);
    assert_eq!(paths[1].bead, other);
}
