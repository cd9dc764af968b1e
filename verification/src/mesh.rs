//! The triangle mesh of one slice, and the directed edges it leaves on the
//! cutting plane.

use crate::tolerance::{on_cutting_plane, within_tolerance};
use vstd::prelude::*;

verus! {

/// A point of the plane, as the bit patterns of its two single-precision
/// coordinates. Two points are the same point when their patterns agree.
#[derive(Clone, Copy, Debug, PartialEq, Eq, Structural, Hash)]
pub struct Point {
    pub x: u32,
    pub y: u32,
}

/// A mesh vertex, as the bit patterns of its three single-precision
/// coordinates.
#[derive(Clone, Copy, Debug, PartialEq, Eq, Structural, Hash)]
pub struct Vertex {
    pub x: u32,
    pub y: u32,
    pub z: u32,
}

/// Three indices into the vertex list, in winding order.
#[derive(Clone, Copy, Debug, PartialEq, Eq, Structural, Hash)]
pub struct Triangle {
    pub a: usize,
    pub b: usize,
    pub c: usize,
}

/// A directed edge between two points of the plane.
#[derive(Clone, Copy, Debug, PartialEq, Eq, Structural, Hash)]
pub struct Edge {
    pub from: Point,
    pub to: Point,
}

/// The triangulated approximation of one cross-section.
#[derive(Clone, Debug)]
pub struct SliceMesh {
    pub vertices: Vec<Vertex>,
    pub triangles: Vec<Triangle>,
}

impl Vertex {
    /// The vertex lies on the cutting plane.
    pub open spec fn on_plane(self) -> bool {
        within_tolerance(self.z)
    }

    /// The vertex seen from above.
    pub open spec fn footprint(self) -> Point {
        Point { x: self.x, y: self.y }
    }

    /// Whether the vertex lies on the cutting plane.
    pub fn is_on_plane(&self) -> (on: bool)
        ensures
            on == self.on_plane(),
    {
        on_cutting_plane(self.z)
    }

    /// The vertex seen from above.
    pub fn to_point(&self) -> (p: Point)
        ensures
            p == self.footprint(),
    {
        Point { x: self.x, y: self.y }
    }
}

impl Triangle {
    /// All three indices name a vertex of a list of `n`.
    pub open spec fn in_range(self, n: nat) -> bool {
        self.a < n && self.b < n && self.c < n
    }
}

/// How many of the triangle's three corners lie on the plane.
pub open spec fn corners_on_plane(vs: Seq<Vertex>, t: Triangle) -> int {
    (if vs[t.a as int].on_plane() { 1int } else { 0 })
        + (if vs[t.b as int].on_plane() { 1int } else { 0 })
        + (if vs[t.c as int].on_plane() { 1int } else { 0 })
}

/// The side from corner `i` to corner `j`, if both ends lie on the plane.
pub open spec fn side(vs: Seq<Vertex>, i: usize, j: usize) -> Seq<Edge> {
    if vs[i as int].on_plane() && vs[j as int].on_plane() {
        seq![Edge { from: vs[i as int].footprint(), to: vs[j as int].footprint() }]
    } else {
        Seq::empty()
    }
}

/// The plane edges that one triangle contributes: none unless exactly two
/// corners lie on the plane, and then its sides `a -> b`, `b -> c`, `c -> a`
/// that have both ends there.
pub open spec fn triangle_edges(vs: Seq<Vertex>, t: Triangle) -> Seq<Edge> {
    if corners_on_plane(vs, t) == 2 {
        side(vs, t.a, t.b) + side(vs, t.b, t.c) + side(vs, t.c, t.a)
    } else {
        Seq::empty()
    }
}

/// The plane edges of a list of triangles, in the order of the triangles.
pub open spec fn edges_of(vs: Seq<Vertex>, ts: Seq<Triangle>) -> Seq<Edge>
    decreases ts.len(),
{
    if ts.len() == 0 {
        Seq::empty()
    } else {
        edges_of(vs, ts.drop_last()) + triangle_edges(vs, ts.last())
    }
}

/// A triangle with exactly two corners on the plane has exactly one side
/// there, and any other triangle has none.
pub proof fn lemma_one_edge_per_triangle(vs: Seq<Vertex>, t: Triangle)
    ensures
        triangle_edges(vs, t).len() == (if corners_on_plane(vs, t) == 2 { 1nat } else { 0 }),
{
}

/// A mesh leaves at most one plane edge per triangle.
pub proof fn lemma_edges_bounded(vs: Seq<Vertex>, ts: Seq<Triangle>)
    ensures
        edges_of(vs, ts).len() <= ts.len(),
    decreases ts.len(),
{
    if ts.len() > 0 {
        lemma_edges_bounded(vs, ts.drop_last());
        lemma_one_edge_per_triangle(vs, ts.last());
    }
}

/// `i -> j` is one of the three sides of the triangle, in winding order.
pub open spec fn is_side(t: Triangle, i: usize, j: usize) -> bool {
    ||| i == t.a && j == t.b
    ||| i == t.b && j == t.c
    ||| i == t.c && j == t.a
}

/// The edge is left by a side of the triangle: the triangle has exactly two
/// corners on the plane, and the edge runs along a side that has both ends
/// there.
pub open spec fn left_by(vs: Seq<Vertex>, t: Triangle, edge: Edge) -> bool {
    corners_on_plane(vs, t) == 2 && exists|i: usize, j: usize|
        #![trigger is_side(t, i, j)]
        is_side(t, i, j) && vs[i as int].on_plane() && vs[j as int].on_plane() && edge == (Edge {
            from: vs[i as int].footprint(),
            to: vs[j as int].footprint(),
        })
}

/// The plane edges of a triangle are exactly the edges that its sides leave.
pub proof fn lemma_triangle_edges(vs: Seq<Vertex>, t: Triangle, edge: Edge)
    ensures
        triangle_edges(vs, t).contains(edge) <==> left_by(vs, t, edge),
{
    let found = triangle_edges(vs, t);
    if found.contains(edge) {
        assert(is_side(t, t.a, t.b) && is_side(t, t.b, t.c) && is_side(t, t.c, t.a));
    }
    if left_by(vs, t, edge) {
        let (i, j) = choose|i: usize, j: usize|
            #![trigger is_side(t, i, j)]
            is_side(t, i, j) && vs[i as int].on_plane() && vs[j as int].on_plane() && edge == (Edge {
                from: vs[i as int].footprint(),
                to: vs[j as int].footprint(),
            });
        assert(found.len() == 1);
        assert(found[0] == edge);
    }
}

/// The plane edges of a list of triangles are exactly the edges that the
/// sides of its triangles leave.
pub proof fn lemma_edges_of(vs: Seq<Vertex>, ts: Seq<Triangle>, edge: Edge)
    ensures
        edges_of(vs, ts).contains(edge) <==> exists|k: int|
            0 <= k < ts.len() && left_by(vs, #[trigger] ts[k], edge),
    decreases ts.len(),
{
    if ts.len() > 0 {
        let earlier = ts.drop_last();
        let before = edges_of(vs, earlier);
        let found = triangle_edges(vs, ts.last());
        lemma_edges_of(vs, earlier, edge);
        lemma_triangle_edges(vs, ts.last(), edge);
        if edges_of(vs, ts).contains(edge) {
            let n = choose|n: int| 0 <= n < (before + found).len() && (before + found)[n] == edge;
            if n < before.len() {
                assert(before[n] == edge);
                let k = choose|k: int| 0 <= k < earlier.len() && left_by(vs, #[trigger] earlier[k], edge);
                assert(ts[k] == earlier[k]);
            } else {
                assert(found[n - before.len()] == edge);
                assert(left_by(vs, ts[ts.len() - 1], edge));
            }
        }
        if exists|k: int| 0 <= k < ts.len() && left_by(vs, #[trigger] ts[k], edge) {
            let k = choose|k: int| 0 <= k < ts.len() && left_by(vs, #[trigger] ts[k], edge);
            if k < earlier.len() {
                assert(earlier[k] == ts[k]);
                let n = choose|n: int| 0 <= n < before.len() && before[n] == edge;
                assert((before + found)[n] == edge);
            } else {
                let n = choose|n: int| 0 <= n < found.len() && found[n] == edge;
                assert((before + found)[before.len() + n] == edge);
            }
        }
    }
}

impl SliceMesh {
    /// Every triangle names three vertices of the mesh.
    pub open spec fn well_formed(&self) -> bool {
        forall|i: int|
            0 <= i < self.triangles@.len() ==> (#[trigger] self.triangles@[i]).in_range(
                self.vertices@.len(),
            )
    }

    /// The directed edges that the mesh leaves on the cutting plane.
    pub open spec fn plane_edges(&self) -> Seq<Edge> {
        edges_of(self.vertices@, self.triangles@)
    }

    /// A mesh of these vertices and triangles.
    pub fn new(vertices: Vec<Vertex>, triangles: Vec<Triangle>) -> (mesh: SliceMesh)
        ensures
            mesh.vertices == vertices,
            mesh.triangles == triangles,
    {
        SliceMesh { vertices, triangles }
    }

    /// Checks that every triangle names three vertices of the mesh.
    pub fn is_well_formed(&self) -> (ok: bool)
        ensures
            ok == self.well_formed(),
    {
        let n = self.vertices.len();
        let mut i: usize = 0;
        while i < self.triangles.len()
            invariant
                i <= self.triangles@.len(),
                n == self.vertices@.len(),
                forall|k: int|
                    0 <= k < i ==> (#[trigger] self.triangles@[k]).in_range(n as nat),
            decreases self.triangles@.len() - i,
        {
            let t = &self.triangles[i];
            if !(t.a < n && t.b < n && t.c < n) {
                return false;
            }
            i += 1;
        }
        true
    }

    /// Collects the plane edges, triangle by triangle.
    pub fn collect_plane_edges(&self) -> (edges: Vec<Edge>)
        requires
            self.well_formed(),
        ensures
            edges@ == self.plane_edges(),
    {
        let mut edges: Vec<Edge> = Vec::new();
        let mut i: usize = 0;
        while i < self.triangles.len()
            invariant
                self.well_formed(),
                i <= self.triangles@.len(),
                edges@ == edges_of(self.vertices@, self.triangles@.take(i as int)),
            decreases self.triangles@.len() - i,
        {
            let t = self.triangles[i];
            let ghost before = edges@;
            let on_a = self.vertices[t.a].is_on_plane();
            let on_b = self.vertices[t.b].is_on_plane();
            let on_c = self.vertices[t.c].is_on_plane();
            let exactly_two = (on_a && on_b && !on_c) || (on_a && !on_b && on_c) || (!on_a
                && on_b && on_c);
            if exactly_two {
                if on_a && on_b {
                    edges.push(
                        Edge { from: self.vertices[t.a].to_point(), to: self.vertices[t.b].to_point() },
                    );
                }
                if on_b && on_c {
                    edges.push(
                        Edge { from: self.vertices[t.b].to_point(), to: self.vertices[t.c].to_point() },
                    );
                }
                if on_c && on_a {
                    edges.push(
                        Edge { from: self.vertices[t.c].to_point(), to: self.vertices[t.a].to_point() },
                    );
                }
            }
            proof {
                let ts = self.triangles@.take(i as int + 1);
                assert(ts.drop_last() == self.triangles@.take(i as int));
                assert(ts.last() == t);
                assert(edges@ == before + triangle_edges(self.vertices@, t));
            }
            i += 1;
        }
        proof {
            assert(self.triangles@.take(i as int) == self.triangles@);
        }
        edges
    }
}

} // verus!
